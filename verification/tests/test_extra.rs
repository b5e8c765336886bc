use kandown::ColumnSort;
use kandown::Kanban;
use kandown::KanbanCard;
use kandown::KanbanError;
use kandown::KanbanSortType;
use kandown::MarkdownError;
use kandown::ParsedCard;
use kandown::ParsedDocument;
use kandown::ParsedProperty;
use kandown::ParsedPropertyType;
use kandown::ParsedPropertyValue;
use kandown::ParsedView;
use kandown::ParsedViewType;
use kandown::parse_document;
use kandown::parse_property;

fn get<'a>(
    groups: &'a [(String, Vec<KanbanCard>)],
    name: &str,
) -> Option<&'a Vec<KanbanCard>> {
    groups.iter().find(|g| g.0 == name).map(|g| &g.1)
}

fn card(id: usize, title: &str, status: &str) -> ParsedCard {
    ParsedCard {
        id,
        title: title.to_string(),
        description: String::new(),
        properties: vec![ParsedPropertyValue {
            property_name: "Status".to_string(),
            value: status.to_string(),
        }],
    }
}

fn board_doc(cards: Vec<ParsedCard>, sort_type: KanbanSortType, column_sorts: Vec<ColumnSort>)
    -> ParsedDocument {
    ParsedDocument {
        properties: vec![ParsedProperty {
            name: "Status".to_string(),
            property_type: ParsedPropertyType::Select {
                options: vec![
                    "Backlog".to_string(),
                    "In Progress".to_string(),
                    "Done".to_string(),
                ],
            },
        }],
        views: vec![ParsedView {
            name: "Board".to_string(),
            layout: ParsedViewType::Board,
            group: Some("Status".to_string()),
            sort_by: None,
            sort_type,
            column_sorts,
            filter: None,
            display: None,
        }],
        cards,
    }
}

// Manual-sort stability: column order [2, 0] for "Backlog" holding cards
// with ids 0, 2 and 5, where 5 has no explicit position, yields [2, 0, 5].
#[test]
fn test_manual_sort_stability_unlisted_last() {
    let doc = board_doc(
        vec![
            card(0, "Zero", "Backlog"),
            card(2, "Two", "Backlog"),
            card(5, "Five", "Backlog"),
        ],
        KanbanSortType::Manual,
        vec![ColumnSort {
            column: "Backlog".to_string(),
            order: vec![2, 0],
        }],
    );
    let board = Kanban::from_document(doc).unwrap();
    let groups = board.get_cards_by_group("Board").unwrap();
    let backlog = get(&groups, "Backlog").unwrap();
    let ids: Vec<usize> = backlog.iter().map(|c| c.id).collect();
    assert_eq!(ids, vec![2, 0, 5]);
}

// Grouping completeness: a Select option no card uses still appears as an
// empty group.
#[test]
fn test_empty_select_option_appears() {
    let doc = board_doc(
        vec![card(0, "Only", "Backlog")],
        KanbanSortType::Unsorted,
        vec![],
    );
    let board = Kanban::from_document(doc).unwrap();
    let groups = board.get_cards_by_group("Board").unwrap();
    assert_eq!(groups.len(), 3);
    assert_eq!(get(&groups, "Backlog").unwrap().len(), 1);
    assert_eq!(get(&groups, "In Progress").unwrap().len(), 0);
    assert_eq!(get(&groups, "Done").unwrap().len(), 0);
}

// A card lacking a value for the group-by property lands in the
// empty-string group.
#[test]
fn test_card_without_group_value() {
    let mut doc = board_doc(vec![card(0, "Only", "Backlog")], KanbanSortType::Unsorted, vec![]);
    doc.cards.push(ParsedCard {
        id: 1,
        title: "Loose".to_string(),
        description: String::new(),
        properties: vec![],
    });
    let board = Kanban::from_document(doc).unwrap();
    let groups = board.get_cards_by_group("Board").unwrap();
    assert_eq!(groups.len(), 4);
    assert_eq!(get(&groups, "").unwrap().len(), 1);
    assert_eq!(get(&groups, "").unwrap()[0].title, "Loose");
}

// Example end-to-end: three cards with distinct Select values land in
// exactly one group each, and in no undeclared group.
#[test]
fn test_example_end_to_end() {
    let input = "# Properties\n- Status: Select\n\t- Backlog\n\t- In Progress\n\t- Done\n- Owner: Text\n\n# Views\n- Board View\n  Layout: Board\n  Group: Status\n\n# Cards\n- A\n  Status: Backlog\n\n- B\n  Status: In Progress\n\n- C\n  Status: Done\n";
    let doc = parse_document(input).unwrap();
    let board = Kanban::from_document(doc).unwrap();
    let groups = board.get_cards_by_group("Board View").unwrap();
    assert_eq!(groups.len(), 3);
    assert_eq!(get(&groups, "Backlog").unwrap().len(), 1);
    assert_eq!(get(&groups, "In Progress").unwrap().len(), 1);
    assert_eq!(get(&groups, "Done").unwrap().len(), 1);
    assert_eq!(get(&groups, "Backlog").unwrap()[0].title, "A");
    assert_eq!(get(&groups, "In Progress").unwrap()[0].title, "B");
    assert_eq!(get(&groups, "Done").unwrap()[0].title, "C");
}

// Add-card on an empty board assigns id 1, not 0: the rule is one past
// the maximum existing id, and an empty board's maximum counts as 0.
#[test]
fn test_add_card_empty_board_id() {
    let doc = board_doc(vec![], KanbanSortType::Unsorted, vec![]);
    let mut board = Kanban::from_document(doc).unwrap();
    let card = board
        .add_card("First".to_string(), String::new(), vec![])
        .unwrap();
    assert_eq!(card.id, 1);
    assert_eq!(board.cards.len(), 1);
}

// Add-card leaves the board unchanged on a validation failure.
#[test]
fn test_add_card_all_or_nothing() {
    let doc = board_doc(vec![card(0, "One", "Backlog")], KanbanSortType::Unsorted, vec![]);
    let mut board = Kanban::from_document(doc).unwrap();
    let result = board.add_card(
        "Bad".to_string(),
        String::new(),
        vec![
            ("Status".to_string(), "Backlog".to_string()),
            ("Missing".to_string(), "x".to_string()),
        ],
    );
    assert!(matches!(result, Err(KanbanError::UnknownProperty { .. })));
    assert_eq!(board.cards.len(), 1);
    assert_eq!(board.property_by_name("Status").unwrap().cards.len(), 1);
}

#[test]
fn test_unknown_property_type_is_rejected() {
    let result = parse_property("- Priority: Urgency\n");
    assert!(matches!(result, Err(MarkdownError::InvalidPropertyType(_))));
    let err = parse_property("- Priority: Urgency\n").err().unwrap();
    assert!(err.message().contains("Unknown property type"));
}

#[test]
fn test_malformed_property_line_is_rejected() {
    let result = parse_document("# Properties\n- Status Select\n");
    assert!(matches!(result, Err(MarkdownError::InvalidFormat(_))));
    let err = result.err().unwrap();
    assert!(err.message().contains("Invalid property format"));
}

#[test]
fn test_unknown_group_by_fails_build() {
    let mut doc = board_doc(vec![], KanbanSortType::Unsorted, vec![]);
    doc.views[0].group = Some("Missing".to_string());
    let result = Kanban::from_document(doc);
    assert!(matches!(result, Err(KanbanError::UnknownGroupBy { .. })));
    let err = result.err().unwrap();
    assert!(err.message().contains("references unknown group by: Missing"));
}

#[test]
fn test_unknown_date_property_fails_build() {
    let mut doc = board_doc(vec![], KanbanSortType::Unsorted, vec![]);
    doc.views[0].layout = ParsedViewType::Calendar;
    doc.views[0].group = Some("Missing".to_string());
    let result = Kanban::from_document(doc);
    assert!(matches!(result, Err(KanbanError::UnknownDateProperty { .. })));
    let err = result.err().unwrap();
    assert!(err.message().contains("unknown date property"));
}

// An unresolved optional sort_by is dropped silently, never a failure.
#[test]
fn test_unknown_sort_by_is_tolerated() {
    let mut doc = board_doc(vec![card(0, "One", "Backlog")], KanbanSortType::Unsorted, vec![]);
    doc.views[0].sort_by = Some("Missing".to_string());
    let board = Kanban::from_document(doc).unwrap();
    assert!(board.view_by_name("Board").unwrap().sort_by.is_none());
}

// An unresolved display entry is dropped; resolved ones are kept in order.
#[test]
fn test_unknown_display_entry_is_dropped() {
    let mut doc = board_doc(vec![], KanbanSortType::Unsorted, vec![]);
    doc.properties.push(ParsedProperty {
        name: "Owner".to_string(),
        property_type: ParsedPropertyType::Text,
    });
    doc.views[0].display = Some("Owner, Missing, Status".to_string());
    let board = Kanban::from_document(doc).unwrap();
    let view = board.view_by_name("Board").unwrap();
    assert_eq!(view.display.len(), 2);
    assert_eq!(board.properties[view.display[0]].name, "Owner");
    assert_eq!(board.properties[view.display[1]].name, "Status");
}

#[test]
fn test_invalid_checkbox_value() {
    let mut doc = board_doc(vec![], KanbanSortType::Unsorted, vec![]);
    doc.properties.push(ParsedProperty {
        name: "Urgent".to_string(),
        property_type: ParsedPropertyType::Checkbox,
    });
    let mut board = Kanban::from_document(doc).unwrap();
    let result = board.add_card(
        "A".to_string(),
        String::new(),
        vec![("Urgent".to_string(), "yes".to_string())],
    );
    assert!(matches!(result, Err(KanbanError::InvalidCheckboxValue { .. })));
    assert!(result.err().unwrap().message().contains("Invalid value for checkbox Urgent"));

    let ok = board.add_card(
        "B".to_string(),
        String::new(),
        vec![("Urgent".to_string(), "true".to_string())],
    );
    assert!(ok.is_ok());
}

#[test]
fn test_move_card_not_found() {
    let doc = board_doc(vec![card(0, "One", "Backlog")], KanbanSortType::Unsorted, vec![]);
    let mut board = Kanban::from_document(doc).unwrap();
    let result = board.move_card("Nobody", "Board", "Done");
    assert!(matches!(result, Err(KanbanError::CardNotFound { .. })));
    assert!(result.err().unwrap().message().contains("Card not found: Nobody"));
}

#[test]
fn test_move_card_by_id_not_found() {
    let doc = board_doc(vec![card(0, "One", "Backlog")], KanbanSortType::Unsorted, vec![]);
    let mut board = Kanban::from_document(doc).unwrap();
    let result = board.move_card_by_id(9, "Board", "Done");
    assert!(matches!(result, Err(KanbanError::CardIdNotFound { .. })));
    assert!(result.err().unwrap().message().contains("Card not found with ID: 9"));
}

#[test]
fn test_group_query_on_table_view() {
    let mut doc = board_doc(vec![], KanbanSortType::Unsorted, vec![]);
    doc.views[0].layout = ParsedViewType::Table;
    doc.views[0].group = None;
    let board = Kanban::from_document(doc).unwrap();
    let result = board.get_cards_by_group("Board");
    assert!(matches!(result, Err(KanbanError::NotBoardView)));
    assert!(result.err().unwrap().message().contains("View is not a Board view"));
}

// Moving a card appends the value pair when the card had none for the
// group-by property, and registers the card with the property.
#[test]
fn test_move_card_without_prior_value() {
    let mut doc = board_doc(vec![card(0, "One", "Backlog")], KanbanSortType::Unsorted, vec![]);
    doc.cards.push(ParsedCard {
        id: 1,
        title: "Loose".to_string(),
        description: String::new(),
        properties: vec![],
    });
    let mut board = Kanban::from_document(doc).unwrap();
    assert_eq!(board.property_by_name("Status").unwrap().cards.len(), 1);
    board.move_card("Loose", "Board", "Done").unwrap();
    assert_eq!(board.property_by_name("Status").unwrap().cards.len(), 2);
    let groups = board.get_cards_by_group("Board").unwrap();
    assert_eq!(get(&groups, "Done").unwrap().len(), 1);
    assert_eq!(get(&groups, "Done").unwrap()[0].title, "Loose");
}

// An empty document parses to empty sections, and serializes to nothing.
#[test]
fn test_empty_document() {
    let doc = parse_document("").unwrap();
    assert_eq!(doc.properties.len(), 0);
    assert_eq!(doc.cards.len(), 0);
    assert_eq!(doc.views.len(), 0);
    assert_eq!(doc.to_markdown(), "");
}

// A value may contain further colons: the split is on the first one only.
#[test]
fn test_value_with_colon() {
    let input = "# Properties\n- Note: Text\n\n# Cards\n- T\n  Note: see: here\n";
    let doc = parse_document(input).unwrap();
    assert_eq!(doc.cards[0].properties[0].property_name, "Note");
    assert_eq!(doc.cards[0].properties[0].value, "see: here");
}

// Duplicate titles: the title lookup finds the later card (last write
// wins), while ids stay distinct.
#[test]
fn test_duplicate_titles_last_wins() {
    let doc = board_doc(
        vec![card(0, "Same", "Backlog"), card(1, "Same", "Done")],
        KanbanSortType::Unsorted,
        vec![],
    );
    let board = Kanban::from_document(doc).unwrap();
    assert_eq!(board.card_by_title("Same").unwrap().id, 1);
}

// A multi-line description survives serialize and re-parse.
#[test]
fn test_multiline_description_roundtrip() {
    let input = "# Cards\n- T\n  first line\n  second line\n\n- U\n  only line\n";
    let doc = parse_document(input).unwrap();
    assert_eq!(doc.cards[0].description, "first line\nsecond line");
    let out = doc.to_markdown();
    let doc2 = parse_document(&out).unwrap();
    assert_eq!(doc2.cards.len(), 2);
    assert_eq!(doc2.cards[0].description, "first line\nsecond line");
    assert_eq!(doc2.cards[1].description, "only line");
}
