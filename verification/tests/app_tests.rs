use priority_sorter::app::{init, title, update, AppMode, AppState, Message, State, UiAction};
use priority_sorter::item::{Item, Message as ItemMessage, State as ItemState};
use priority_sorter::sorter::{SortState, Sorter};

fn fresh_app(names: &[&str]) -> AppState {
    AppState {
        state: State {
            input_value: String::new(),
            items: names.iter().map(|n| Item::new(n)).collect(),
            sorter: Sorter::new(),
        },
        mode: AppMode::List,
    }
}

fn descriptions(app: &AppState) -> Vec<String> {
    app.state
        .items
        .iter()
        .map(|item| item.description.clone())
        .collect()
}

#[test]
fn init_seeds_ten_idle_items() {
    let app = init();
    assert!(matches!(app.mode, AppMode::List));
    assert_eq!(app.state.input_value, "");
    assert!(matches!(app.state.sorter.state, SortState::Empty));
    assert_eq!(
        descriptions(&app),
        vec!["10", "20", "30", "40", "50", "60", "70", "80", "90", "100"]
    );
    assert!(app
        .state
        .items
        .iter()
        .all(|item| matches!(item.state, ItemState::Idle)));
}

#[test]
fn title_names_the_application() {
    let app = fresh_app(&[]);
    assert_eq!(title(&app), "Priority Sorter");
}

#[test]
fn item_new_starts_idle() {
    let item = Item::new("laundry");
    assert_eq!(item.description, "laundry");
    assert!(matches!(item.state, ItemState::Idle));
}

#[test]
fn items_compare_by_description() {
    let mut a = Item::new("same");
    let b = Item::new("same");
    assert_eq!(a, b);
    a.update(ItemMessage::Edit);
    assert_eq!(a, b, "editing state does not affect equality");
    a.update(ItemMessage::DescriptionEdited("other".to_string()));
    assert_ne!(a, b);
}

#[test]
fn item_update_follows_the_edit_lifecycle() {
    let mut item = Item::new("groceries");
    item.update(ItemMessage::Edit);
    assert!(matches!(item.state, ItemState::Editing));

    item.update(ItemMessage::DescriptionEdited(String::new()));
    assert_eq!(item.description, "");
    item.update(ItemMessage::FinishEdition);
    assert!(
        matches!(item.state, ItemState::Editing),
        "an empty description cannot leave edit mode"
    );

    item.update(ItemMessage::DescriptionEdited("garden".to_string()));
    item.update(ItemMessage::FinishEdition);
    assert!(matches!(item.state, ItemState::Idle));
    assert_eq!(item.description, "garden");

    let before = item.clone();
    item.update(ItemMessage::Delete);
    assert_eq!(item, before);
}

#[test]
fn input_changed_and_create_item_manage_the_list() {
    let mut app = fresh_app(&["first"]);
    let action = update(&mut app, Message::InputChanged("second".to_string()));
    assert_eq!(action, UiAction::Nothing);
    assert_eq!(app.state.input_value, "second");

    let action = update(&mut app, Message::CreateItem);
    assert_eq!(action, UiAction::Nothing);
    assert_eq!(app.state.input_value, "");
    assert_eq!(descriptions(&app), vec!["first", "second"]);

    // Submitting an empty input adds nothing.
    let action = update(&mut app, Message::CreateItem);
    assert_eq!(action, UiAction::Nothing);
    assert_eq!(descriptions(&app), vec!["first", "second"]);
}

#[test]
fn delete_removes_the_addressed_item() {
    let mut app = fresh_app(&["a", "b", "c"]);
    let action = update(&mut app, Message::ItemMessage(1, ItemMessage::Delete));
    assert_eq!(action, UiAction::Nothing);
    assert_eq!(descriptions(&app), vec!["a", "c"]);
}

#[test]
fn edit_message_reaches_the_item_and_requests_focus() {
    let mut app = fresh_app(&["a", "b"]);
    let action = update(&mut app, Message::ItemMessage(1, ItemMessage::Edit));
    assert_eq!(action, UiAction::FocusItem(1));
    assert!(matches!(app.state.items[1].state, ItemState::Editing));
    assert!(matches!(app.state.items[0].state, ItemState::Idle));

    // An out-of-range index changes nothing.
    let action = update(&mut app, Message::ItemMessage(9, ItemMessage::Edit));
    assert_eq!(action, UiAction::Nothing);
    assert_eq!(descriptions(&app), vec!["a", "b"]);
}

#[test]
fn focus_and_window_events_only_request_actions() {
    let mut app = fresh_app(&["a"]);
    assert_eq!(
        update(&mut app, Message::TabPressed { shift: false }),
        UiAction::FocusNext
    );
    assert_eq!(
        update(&mut app, Message::TabPressed { shift: true }),
        UiAction::FocusPrevious
    );
    assert_eq!(
        update(&mut app, Message::ToggleFullscreen),
        UiAction::ToggleFullscreen
    );
    assert_eq!(descriptions(&app), vec!["a"]);
    assert!(matches!(app.mode, AppMode::List));
}

#[test]
fn a_whole_prioritization_pass_through_the_app() {
    let mut app = fresh_app(&["A", "B", "C"]);

    let action = update(&mut app, Message::SortItems);
    assert_eq!(action, UiAction::Nothing);
    assert!(matches!(app.mode, AppMode::Choose));
    assert!(matches!(
        app.state.sorter.state,
        SortState::Compare { .. }
    ));

    // C outranks A; then A outranks B.
    update(&mut app, Message::ChooseLeft);
    update(&mut app, Message::ChooseRight);
    assert!(matches!(app.state.sorter.state, SortState::Done { .. }));

    // Stray decisions after completion change nothing.
    update(&mut app, Message::ChooseLeft);
    assert!(matches!(app.state.sorter.state, SortState::Done { .. }));

    let action = update(&mut app, Message::ListView);
    assert_eq!(action, UiAction::Nothing);
    assert!(matches!(app.mode, AppMode::List));
    assert_eq!(descriptions(&app), vec!["C", "A", "B"]);
}

#[test]
fn sorting_an_empty_list_has_nothing_to_compare() {
    let mut app = fresh_app(&[]);
    update(&mut app, Message::SortItems);
    assert!(matches!(app.mode, AppMode::Choose));
    assert!(matches!(app.state.sorter.state, SortState::Empty));

    update(&mut app, Message::ListView);
    assert!(matches!(app.mode, AppMode::List));
    assert_eq!(descriptions(&app), Vec::<String>::new());
}
