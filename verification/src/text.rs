use vstd::prelude::*;

verus! {

// ---------------------------------------------------------------------------
// Characters and whitespace
// ---------------------------------------------------------------------------

/// Horizontal whitespace: what indentation and trimming treat as blank.
/// A stray carriage return counts as whitespace too, so fields captured by
/// trimming never keep one at either end.
pub open spec fn is_ws(c: char) -> bool {
    c == ' ' || c == '\t' || c == '\r'
}

pub open spec fn is_digit(c: char) -> bool {
    '0' <= c && c <= '9'
}

pub open spec fn is_bullet(c: char) -> bool {
    c == '-' || c == '*' || c == '+'
}

/// First index at or after `p` holding a non-whitespace character, or `l.len()`.
pub open spec fn ws_end(l: Seq<char>, p: int) -> int
    recommends
        0 <= p <= l.len(),
    decreases l.len() - p,
{
    if p < 0 || p >= l.len() {
        l.len() as int
    } else if is_ws(l[p]) {
        ws_end(l, p + 1)
    } else {
        p
    }
}

/// First index at or after `p` holding a non-digit character, or `l.len()`.
pub open spec fn digit_end(l: Seq<char>, p: int) -> int
    recommends
        0 <= p <= l.len(),
    decreases l.len() - p,
{
    if p < 0 || p >= l.len() {
        l.len() as int
    } else if is_digit(l[p]) {
        digit_end(l, p + 1)
    } else {
        p
    }
}

/// First index at or after `p` holding `c`, or `l.len()`.
pub open spec fn find_char(l: Seq<char>, c: char, p: int) -> int
    recommends
        0 <= p <= l.len(),
    decreases l.len() - p,
{
    if p < 0 || p >= l.len() {
        l.len() as int
    } else if l[p] == c {
        p
    } else {
        find_char(l, c, p + 1)
    }
}

pub open spec fn indent_len(l: Seq<char>) -> int {
    ws_end(l, 0)
}

/// A line of nothing but horizontal whitespace (or nothing at all).
pub open spec fn line_blank(l: Seq<char>) -> bool {
    ws_end(l, 0) == l.len()
}

/// Index just past the last non-whitespace character, or 0 on a blank line.
pub open spec fn trim_end_idx(l: Seq<char>) -> int
    decreases l.len(),
{
    if l.len() == 0 {
        0
    } else if is_ws(l.last()) {
        trim_end_idx(l.drop_last())
    } else {
        l.len() as int
    }
}

/// The line with leading and trailing horizontal whitespace removed.
pub open spec fn trim_spec(l: Seq<char>) -> Seq<char> {
    if line_blank(l) {
        Seq::empty()
    } else {
        l.subrange(indent_len(l), trim_end_idx(l))
    }
}

pub proof fn lemma_ws_end(l: Seq<char>, p: int)
    requires
        0 <= p <= l.len(),
    ensures
        p <= ws_end(l, p) <= l.len(),
        forall|k: int| p <= k < ws_end(l, p) ==> is_ws(l[k]),
        ws_end(l, p) < l.len() ==> !is_ws(l[ws_end(l, p)]),
    decreases l.len() - p,
{
    if p < l.len() && is_ws(l[p]) {
        lemma_ws_end(l, p + 1);
    }
}

pub proof fn lemma_ws_end_unique(l: Seq<char>, p: int, j: int)
    requires
        0 <= p <= j <= l.len(),
        forall|k: int| p <= k < j ==> is_ws(l[k]),
        j < l.len() ==> !is_ws(l[j]),
    ensures
        ws_end(l, p) == j,
    decreases j - p,
{
    if p < j {
        lemma_ws_end_unique(l, p + 1, j);
    }
}

pub proof fn lemma_digit_end(l: Seq<char>, p: int)
    requires
        0 <= p <= l.len(),
    ensures
        p <= digit_end(l, p) <= l.len(),
        forall|k: int| p <= k < digit_end(l, p) ==> is_digit(l[k]),
        digit_end(l, p) < l.len() ==> !is_digit(l[digit_end(l, p)]),
    decreases l.len() - p,
{
    if p < l.len() && is_digit(l[p]) {
        lemma_digit_end(l, p + 1);
    }
}

pub proof fn lemma_digit_end_unique(l: Seq<char>, p: int, j: int)
    requires
        0 <= p <= j <= l.len(),
        forall|k: int| p <= k < j ==> is_digit(l[k]),
        j < l.len() ==> !is_digit(l[j]),
    ensures
        digit_end(l, p) == j,
    decreases j - p,
{
    if p < j {
        lemma_digit_end_unique(l, p + 1, j);
    }
}

pub proof fn lemma_find_char(l: Seq<char>, c: char, p: int)
    requires
        0 <= p <= l.len(),
    ensures
        p <= find_char(l, c, p) <= l.len(),
        forall|k: int| p <= k < find_char(l, c, p) ==> l[k] != c,
        find_char(l, c, p) < l.len() ==> l[find_char(l, c, p)] == c,
    decreases l.len() - p,
{
    if p < l.len() && l[p] != c {
        lemma_find_char(l, c, p + 1);
    }
}

pub proof fn lemma_find_char_unique(l: Seq<char>, c: char, p: int, j: int)
    requires
        0 <= p <= j <= l.len(),
        forall|k: int| p <= k < j ==> l[k] != c,
        j < l.len() ==> l[j] == c,
    ensures
        find_char(l, c, p) == j,
    decreases j - p,
{
    if p < j {
        lemma_find_char_unique(l, c, p + 1, j);
    }
}

pub proof fn lemma_trim_end(l: Seq<char>)
    ensures
        0 <= trim_end_idx(l) <= l.len(),
        forall|k: int| trim_end_idx(l) <= k < l.len() ==> is_ws(l[k]),
        trim_end_idx(l) > 0 ==> !is_ws(l[trim_end_idx(l) - 1]),
    decreases l.len(),
{
    if l.len() > 0 && is_ws(l.last()) {
        lemma_trim_end(l.drop_last());
        assert(forall|k: int|
            trim_end_idx(l) <= k < l.len() - 1 ==> l[k] == l.drop_last()[k] && is_ws(l[k]));
    }
}

pub proof fn lemma_trim_end_unique(l: Seq<char>, j: int)
    requires
        0 <= j <= l.len(),
        forall|k: int| j <= k < l.len() ==> is_ws(l[k]),
        j > 0 ==> !is_ws(l[j - 1]),
    ensures
        trim_end_idx(l) == j,
    decreases l.len(),
{
    if l.len() > 0 && is_ws(l.last()) {
        lemma_trim_end_unique(l.drop_last(), j);
    }
}

/// On a non-blank line the trimmed bounds are properly ordered.
pub proof fn lemma_trim_bounds(l: Seq<char>)
    requires
        !line_blank(l),
    ensures
        0 <= indent_len(l) < trim_end_idx(l) <= l.len(),
        !is_ws(l[indent_len(l)]),
        !is_ws(l[trim_end_idx(l) - 1]),
        trim_spec(l).len() > 0,
        !is_ws(trim_spec(l)[0]),
        !is_ws(trim_spec(l).last()),
{
    lemma_ws_end(l, 0);
    lemma_trim_end(l);
    let a = indent_len(l);
    let b = trim_end_idx(l);
    if b <= a {
        assert(is_ws(l[a]));
    }
}

/// Trimming a sequence that neither starts nor ends with whitespace is the identity.
pub proof fn lemma_trim_noop(l: Seq<char>)
    requires
        l.len() > 0,
        !is_ws(l[0]),
        !is_ws(l.last()),
    ensures
        trim_spec(l) == l,
{
    lemma_ws_end_unique(l, 0, 0);
    lemma_trim_end_unique(l, l.len() as int);
    assert(trim_spec(l) =~= l);
}

// ---------------------------------------------------------------------------
// List items
// ---------------------------------------------------------------------------

/// Where the content of a list-item line starts: after indentation, a bullet
/// marker (`-`, `*`, `+`, or digits followed by `.` or `)`), and at least one
/// space, there must be at least one further character.
pub open spec fn item_content_start(l: Seq<char>) -> Option<int> {
    let ind = ws_end(l, 0);
    if ind < l.len() && is_bullet(l[ind]) {
        item_content_from(l, ind + 1)
    } else {
        let de = digit_end(l, ind);
        if de > ind && de < l.len() && (l[de] == '.' || l[de] == ')') {
            item_content_from(l, de + 1)
        } else {
            Option::None
        }
    }
}

/// After the bullet marker ends at `q`: require at least one whitespace
/// character and then non-empty content.
pub open spec fn item_content_from(l: Seq<char>, q: int) -> Option<int> {
    let s = ws_end(l, q);
    if s > q && s < l.len() {
        Option::Some(s)
    } else {
        Option::None
    }
}

/// A list-item line, as (indent width, raw content to end of line).
pub open spec fn list_item_spec(l: Seq<char>) -> Option<(int, Seq<char>)> {
    match item_content_start(l) {
        Option::Some(s) => Option::Some((ws_end(l, 0), l.subrange(s, l.len() as int))),
        Option::None => Option::None,
    }
}

// ---------------------------------------------------------------------------
// Headings
// ---------------------------------------------------------------------------

/// A level-1 heading line introducing the named section: `#`, optional
/// whitespace, then exactly the name (surrounding whitespace ignored).
pub open spec fn is_heading(l: Seq<char>, name: Seq<char>) -> bool {
    l.len() > 0 && l[0] == '#' && trim_spec(l.subrange(1, l.len() as int)) == name
}

// ---------------------------------------------------------------------------
// Unsigned decimal numbers
// ---------------------------------------------------------------------------

pub open spec fn all_digits(s: Seq<char>) -> bool {
    forall|i: int| 0 <= i < s.len() ==> is_digit(s[i])
}

pub open spec fn digit_val(c: char) -> int {
    c as int - '0' as int
}

/// The value of a digit string, most significant digit first.
pub open spec fn digits_val(s: Seq<char>) -> int
    decreases s.len(),
{
    if s.len() == 0 {
        0
    } else {
        10 * digits_val(s.drop_last()) + digit_val(s.last())
    }
}

/// What a manual-sort entry must look like: a non-empty digit string whose
/// value fits in `usize`.
pub open spec fn parse_usize_spec(s: Seq<char>) -> Option<int> {
    if s.len() > 0 && all_digits(s) && digits_val(s) <= usize::MAX {
        Option::Some(digits_val(s))
    } else {
        Option::None
    }
}

pub proof fn lemma_digits_val_nonneg(s: Seq<char>)
    requires
        all_digits(s),
    ensures
        digits_val(s) >= 0,
    decreases s.len(),
{
    if s.len() > 0 {
        assert(all_digits(s.drop_last())) by {
            assert(forall|i: int|
                0 <= i < s.len() - 1 ==> s.drop_last()[i] == s[i] && is_digit(s[i]));
        }
        lemma_digits_val_nonneg(s.drop_last());
    }
}

/// Extending a digit string on the right multiplies its value by ten.
pub proof fn lemma_digits_val_push(s: Seq<char>, c: char)
    ensures
        digits_val(s.push(c)) == 10 * digits_val(s) + digit_val(c),
{
    assert(s.push(c).drop_last() =~= s);
    assert(s.push(c).last() == c);
}

/// A digit-string prefix never exceeds the whole string's value.
pub proof fn lemma_digits_val_prefix(s: Seq<char>, k: int)
    requires
        all_digits(s),
        0 <= k <= s.len(),
    ensures
        digits_val(s.take(k)) <= digits_val(s),
    decreases s.len() - k,
{
    if k < s.len() {
        lemma_digits_val_prefix(s, k + 1);
        let t = s.take(k + 1);
        assert(t.drop_last() =~= s.take(k));
        assert(is_digit(t.last()));
        assert(all_digits(s.take(k)));
        lemma_digits_val_nonneg(s.take(k));
        assert(digits_val(s.take(k)) <= digits_val(s.take(k + 1)));
    } else {
        assert(s.take(k) =~= s);
    }
}

/// The decimal rendering of a non-negative number.
pub open spec fn dec_digits(n: int) -> Seq<char>
    recommends
        n >= 0,
    decreases n,
{
    if n < 10 {
        seq![dec_digit_char(n)]
    } else {
        dec_digits(n / 10).push(dec_digit_char(n % 10))
    }
}

pub open spec fn dec_digit_char(n: int) -> char {
    if n == 0 { '0' }
    else if n == 1 { '1' }
    else if n == 2 { '2' }
    else if n == 3 { '3' }
    else if n == 4 { '4' }
    else if n == 5 { '5' }
    else if n == 6 { '6' }
    else if n == 7 { '7' }
    else if n == 8 { '8' }
    else if n == 9 { '9' }
    else { '0' }
}

/// Decimal rendering produces digits only, and parsing it back recovers `n`.
pub proof fn lemma_dec_digits_roundtrip(n: int)
    requires
        0 <= n,
    ensures
        dec_digits(n).len() > 0,
        all_digits(dec_digits(n)),
        digits_val(dec_digits(n)) == n,
        n <= usize::MAX ==> parse_usize_spec(dec_digits(n)) == Option::Some(n),
    decreases n,
{
    if n < 10 {
        assert(dec_digits(n) =~= seq![dec_digit_char(n)]);
        assert(digits_val(dec_digits(n)) == 10 * digits_val(dec_digits(n).drop_last()) + digit_val(
            dec_digit_char(n),
        ));
        assert(dec_digits(n).drop_last() =~= Seq::<char>::empty());
    } else {
        lemma_dec_digits_roundtrip(n / 10);
        lemma_digits_val_push(dec_digits(n / 10), dec_digit_char(n % 10));
        assert forall|i: int| 0 <= i < dec_digits(n).len() implies is_digit(
            dec_digits(n)[i],
        ) by {
            if i < dec_digits(n).len() - 1 {
                assert(dec_digits(n)[i] == dec_digits(n / 10)[i]);
            }
        }
    }
}

// ---------------------------------------------------------------------------
// Splitting text into lines
// ---------------------------------------------------------------------------

/// Drop trailing carriage returns, so CRLF and LF line endings agree.
pub open spec fn strip_cr(l: Seq<char>) -> Seq<char>
    decreases l.len(),
{
    if l.len() > 0 && l.last() == '\r' {
        strip_cr(l.drop_last())
    } else {
        l
    }
}

/// The lines of a text: pieces between newline characters, a trailing
/// carriage return removed from each.  A trailing newline does not open an
/// extra empty line.
pub open spec fn split_lines_spec(t: Seq<char>) -> Seq<Seq<char>>
    decreases t.len(),
{
    if t.len() == 0 {
        Seq::empty()
    } else {
        let i = find_char(t, '\n', 0);
        if 0 <= i < t.len() {
            seq![strip_cr(t.take(i))] + split_lines_spec(t.skip(i + 1))
        } else {
            seq![strip_cr(t)]
        }
    }
}

// ---------------------------------------------------------------------------
// Executable counterparts
// ---------------------------------------------------------------------------

/// Executable test for horizontal whitespace.
pub fn is_ws_x(c: char) -> (r: bool)
    ensures
        r == is_ws(c),
{
    c == ' ' || c == '\t' || c == '\r'
}

/// Executable test for an ASCII digit.
pub fn is_digit_x(c: char) -> (r: bool)
    ensures
        r == is_digit(c),
{
    '0' <= c && c <= '9'
}

/// First non-whitespace position at or after `p`.
pub fn ws_end_x(l: &str, p: usize) -> (r: usize)
    requires
        p <= l@.len(),
    ensures
        r == ws_end(l@, p as int),
{
    let n = l.unicode_len();
    let mut j: usize = p;
    while j < n && is_ws_x(l.get_char(j))
        invariant
            p <= j <= n,
            n == l@.len(),
            forall|k: int| p <= k < j ==> is_ws(l@[k]),
        decreases n - j,
    {
        j += 1;
    }
    proof {
        lemma_ws_end_unique(l@, p as int, j as int);
    }
    j
}

/// Whether the line holds nothing but horizontal whitespace.
pub fn line_blank_x(l: &str) -> (r: bool)
    ensures
        r == line_blank(l@),
{
    let e = ws_end_x(l, 0);
    e == l.unicode_len()
}

/// The line without leading and trailing horizontal whitespace.
pub fn trim_str(l: &str) -> (r: &str)
    ensures
        r@ == trim_spec(l@),
{
    let n = l.unicode_len();
    let a = ws_end_x(l, 0);
    if a == n {
        let r = l.substring_char(0, 0);
        proof {
            assert(r@ =~= trim_spec(l@));
        }
        r
    } else {
        proof {
            lemma_ws_end(l@, 0);
        }
        // scan back from the end for the last non-whitespace character
        let mut b: usize = n;
        while b > a && is_ws_x(l.get_char(b - 1))
            invariant
                a <= b <= n,
                n == l@.len(),
                a == ws_end(l@, 0),
                a < n,
                forall|k: int| b <= k < n ==> is_ws(l@[k]),
            decreases b,
        {
            b -= 1;
        }
        proof {
            lemma_ws_end(l@, 0);
            if b > a {
                lemma_trim_end_unique(l@, b as int);
            } else {
                assert(b == a);
                assert(!is_ws(l@[a as int]));
                lemma_trim_end_unique(l@, b as int);
            }
            assert(!line_blank(l@));
        }
        l.substring_char(a, b)
    }
}

/// Recognize a list-item line; returns its indent width and raw content.
pub fn list_item_x<'a>(l: &'a str) -> (r: Option<(usize, &'a str)>)
    ensures
        match r {
            Option::Some((ind, raw)) => list_item_spec(l@) == Option::Some(
                (ind as int, raw@),
            ),
            Option::None => list_item_spec(l@) is None,
        },
{
    let n = l.unicode_len();
    let ind = ws_end_x(l, 0);
    proof {
        lemma_ws_end(l@, 0);
    }
    let after: usize;
    if ind < n && { let c = l.get_char(ind); c == '-' || c == '*' || c == '+' } {
        after = ind + 1;
    } else {
        // digits followed by '.' or ')'
        let mut de: usize = ind;
        while de < n && is_digit_x(l.get_char(de))
            invariant
                ind <= de <= n,
                n == l@.len(),
                forall|k: int| ind <= k < de ==> is_digit(l@[k]),
            decreases n - de,
        {
            de += 1;
        }
        proof {
            lemma_digit_end_unique(l@, ind as int, de as int);
        }
        if de > ind && de < n && { let c = l.get_char(de); c == '.' || c == ')' } {
            after = de + 1;
        } else {
            return Option::None;
        }
    }
    let s = ws_end_x(l, after);
    if s > after && s < n {
        let raw = l.substring_char(s, n);
        proof {
            assert(raw@ =~= l@.subrange(s as int, l@.len() as int));
        }
        Option::Some((ind, raw))
    } else {
        Option::None
    }
}

/// Character-for-character string equality.
pub fn str_eq(a: &str, b: &str) -> (r: bool)
    ensures
        r == (a@ == b@),
{
    let na = a.unicode_len();
    let nb = b.unicode_len();
    if na != nb {
        return false;
    }
    let mut i: usize = 0;
    while i < na
        invariant
            0 <= i <= na,
            na == a@.len(),
            na == b@.len(),
            forall|k: int| 0 <= k < i ==> a@[k] == b@[k],
        decreases na - i,
    {
        if a.get_char(i) != b.get_char(i) {
            return false;
        }
        i += 1;
    }
    proof {
        assert(a@ =~= b@);
    }
    true
}

/// Whether the line is a heading introducing the named section.
pub fn is_heading_x(l: &str, name: &str) -> (r: bool)
    ensures
        r == is_heading(l@, name@),
{
    let n = l.unicode_len();
    if n == 0 || l.get_char(0) != '#' {
        return false;
    }
    let rest = l.substring_char(1, n);
    proof {
        assert(rest@ =~= l@.subrange(1, l@.len() as int));
    }
    str_eq(trim_str(rest), name)
}

/// First position at or after `p` holding `c`.
pub fn find_char_x(l: &str, c: char, p: usize) -> (r: usize)
    requires
        p <= l@.len(),
    ensures
        r == find_char(l@, c, p as int),
{
    let n = l.unicode_len();
    let mut j: usize = p;
    while j < n && l.get_char(j) != c
        invariant
            p <= j <= n,
            n == l@.len(),
            forall|k: int| p <= k < j ==> l@[k] != c,
        decreases n - j,
    {
        j += 1;
    }
    proof {
        lemma_find_char_unique(l@, c, p as int, j as int);
    }
    j
}

/// Parse a non-empty all-digit string as a `usize`; `None` on any other
/// input, including values past `usize::MAX`.
pub fn parse_usize_x(s: &str) -> (r: Option<usize>)
    ensures
        match r {
            Option::Some(v) => parse_usize_spec(s@) == Option::Some(v as int),
            Option::None => parse_usize_spec(s@) is None,
        },
{
    let n = s.unicode_len();
    if n == 0 {
        return Option::None;
    }
    let mut i: usize = 0;
    let mut val: usize = 0;
    while i < n
        invariant
            0 <= i <= n,
            n == s@.len(),
            all_digits(s@.take(i as int)),
            val == digits_val(s@.take(i as int)),
        decreases n - i,
    {
        let c = s.get_char(i);
        if !('0' <= c && c <= '9') {
            proof {
                assert(!all_digits(s@));
            }
            return Option::None;
        }
        let d: usize = (c as u32 as usize) - ('0' as u32 as usize);
        proof {
            lemma_digits_val_push(s@.take(i as int), c);
            assert(s@.take(i as int).push(c) =~= s@.take(i as int + 1));
        }
        if val > usize::MAX / 10 || (val == usize::MAX / 10 && d > usize::MAX % 10) {
            proof {
                assert(digits_val(s@.take(i as int + 1)) > usize::MAX);
                if all_digits(s@) {
                    lemma_digits_val_prefix(s@, i as int + 1);
                }
            }
            return Option::None;
        }
        val = val * 10 + d;
        i += 1;
    }
    proof {
        assert(s@.take(n as int) =~= s@);
    }
    Option::Some(val)
}

/// Render a number in decimal.
pub fn usize_to_string(n: usize) -> (r: String)
    ensures
        r@ == dec_digits(n as int),
    decreases n,
{
    let d = n % 10;
    let ds: &str = if d == 0 { "0" }
        else if d == 1 { "1" }
        else if d == 2 { "2" }
        else if d == 3 { "3" }
        else if d == 4 { "4" }
        else if d == 5 { "5" }
        else if d == 6 { "6" }
        else if d == 7 { "7" }
        else if d == 8 { "8" }
        else { "9" };
    proof {
        reveal_strlit("0");
        reveal_strlit("1");
        reveal_strlit("2");
        reveal_strlit("3");
        reveal_strlit("4");
        reveal_strlit("5");
        reveal_strlit("6");
        reveal_strlit("7");
        reveal_strlit("8");
        reveal_strlit("9");
        assert(ds@ =~= seq![dec_digit_char(d as int)]);
    }
    if n < 10 {
        ds.to_owned()
    } else {
        let mut r = usize_to_string(n / 10);
        r.append(ds);
        proof {
            assert(r@ =~= dec_digits(n as int));
        }
        r
    }
}

/// The lines of the text, split on newlines.
pub fn split_lines(s: &str) -> (r: Vec<String>)
    ensures
        r.deep_view() == split_lines_spec(s@),
{
    let n = s.unicode_len();
    let mut out: Vec<String> = Vec::new();
    let mut pos: usize = 0;
    proof {
        assert(s@.skip(0) =~= s@);
        assert(out.deep_view() =~= Seq::<Seq<char>>::empty());
    }
    while pos < n
        invariant
            0 <= pos <= n,
            n == s@.len(),
            out.deep_view() + split_lines_spec(s@.skip(pos as int)) =~= split_lines_spec(s@),
        decreases n - pos,
    {
        let mut j: usize = pos;
        while j < n && s.get_char(j) != '\n'
            invariant
                pos <= j <= n,
                n == s@.len(),
                forall|k: int| pos <= k < j ==> s@[k] != '\n',
            decreases n - j,
        {
            j += 1;
        }
        let mut end: usize = j;
        while end > pos && s.get_char(end - 1) == '\r'
            invariant
                pos <= end <= j <= n,
                n == s@.len(),
                strip_cr(s@.subrange(pos as int, end as int)) == strip_cr(
                    s@.subrange(pos as int, j as int),
                ),
            decreases end,
        {
            proof {
                let piece = s@.subrange(pos as int, end as int);
                assert(piece.last() == s@[end - 1]);
                assert(piece.drop_last() =~= s@.subrange(pos as int, end as int - 1));
            }
            end -= 1;
        }
        let line = s.substring_char(pos, end).to_owned();
        proof {
            let piece = s@.subrange(pos as int, end as int);
            if end > pos {
                assert(piece.last() == s@[end - 1]);
            }
            assert(strip_cr(piece) == piece);
            assert(line@ == strip_cr(s@.subrange(pos as int, j as int)));
        }
        proof {
            let t = s@.skip(pos as int);
            assert forall|k: int| 0 <= k < j - pos implies t[k] != '\n' by {
                assert(t[k] == s@[pos + k]);
            }
            if j < n {
                assert(t[j - pos] == s@[j as int]);
            }
            lemma_find_char_unique(t, '\n', 0, j - pos as int);
            let piece = if j < n { t.take(j - pos as int) } else { t };
            assert(piece =~= s@.subrange(pos as int, j as int));
            assert(strip_cr(piece) =~= line@);
            if j < n {
                assert(t.skip(j - pos as int + 1) =~= s@.skip(j as int + 1));
                assert(split_lines_spec(t) =~= seq![strip_cr(piece)] + split_lines_spec(
                    s@.skip(j as int + 1),
                ));
            } else {
                assert(split_lines_spec(t) =~= seq![strip_cr(piece)]);
                assert(s@.skip(n as int) =~= Seq::<char>::empty());
            }
            assert(out.deep_view().push(line@) =~= out.deep_view() + seq![line@]);
        }
        out.push(line);
        pos = if j < n { j + 1 } else { n };
        proof {
            assert(out.deep_view() + split_lines_spec(s@.skip(pos as int)) =~= split_lines_spec(
                s@,
            ));
        }
    }
    proof {
        assert(s@.skip(n as int) =~= Seq::<char>::empty());
        assert(out.deep_view() =~= split_lines_spec(s@));
    }
    out
}

} // verus!
