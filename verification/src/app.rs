//! The application's state and what each user event does to it: the item
//! list, the input line, the screen being shown, and the sorter driving the
//! prioritization. Rendering, focus and window management belong to the
//! embedding shell, which performs the [`UiAction`] each update returns.

use vstd::prelude::*;

use crate::item::{updated_item, Item, Message as ItemMessage};
use crate::model::{start_model, step_model, SortModel};
use crate::sorter::{Choice, Sorter};

verus! {

/// Which screen the application is showing.
#[derive(Debug, Clone, Copy)]
pub enum AppMode {
    List,
    Choose,
}

/// The data behind the interface.
pub struct State {
    pub input_value: String,
    pub items: Vec<Item>,
    pub sorter: Sorter<Item>,
}

/// The whole application: its data and the screen being shown.
pub struct AppState {
    pub state: State,
    pub mode: AppMode,
}

/// One user event, as the update logic sees it.
#[derive(Debug, Clone)]
pub enum Message {
    SortItems,
    ListView,
    InputChanged(String),
    CreateItem,
    ItemMessage(usize, ItemMessage),
    TabPressed { shift: bool },
    ToggleFullscreen,
    ChooseLeft,
    ChooseRight,
}

/// What the embedding shell must do after an update, beyond redrawing.
#[derive(Debug, Clone, Copy, PartialEq, Eq, Structural)]
pub enum UiAction {
    Nothing,
    FocusItem(usize),
    FocusNext,
    FocusPrevious,
    ToggleFullscreen,
}

impl AppState {
    /// The application is well formed whenever its sorter is.
    pub open spec fn wf(self) -> bool {
        self.state.sorter@.wf()
    }
}

/// The descriptions of the items the application first starts with.
pub open spec fn default_descriptions() -> Seq<Seq<char>> {
    seq!["10"@, "20"@, "30"@, "40"@, "50"@, "60"@, "70"@, "80"@, "90"@, "100"@]
}

/// The application as it first starts: ten placeholder items, an empty input
/// line, no run in progress, and the list on screen.
pub fn init() -> (app: AppState)
    ensures
        app.wf(),
        app.state.sorter@ is Empty,
        app.state.input_value@.len() == 0,
        app.mode is List,
        app.state.items@.len() == default_descriptions().len(),
        forall|i: int|
            0 <= i < app.state.items@.len() ==> #[trigger] app.state.items@[i].description@
                == default_descriptions()[i] && app.state.items@[i].state is Idle,
{
    let mut items: Vec<Item> = Vec::new();
    items.push(Item::new("10"));
    items.push(Item::new("20"));
    items.push(Item::new("30"));
    items.push(Item::new("40"));
    items.push(Item::new("50"));
    items.push(Item::new("60"));
    items.push(Item::new("70"));
    items.push(Item::new("80"));
    items.push(Item::new("90"));
    items.push(Item::new("100"));
    let sorter = Sorter::<Item>::new();
    let state = State { input_value: String::new(), items, sorter };
    AppState { state, mode: AppMode::List }
}

/// The window title.
pub fn title(_state: &AppState) -> (t: String)
    ensures
        t@ == "Priority Sorter"@,
{
    "Priority Sorter".to_owned()
}

/// Apply one user event to the application.
///
/// Typing edits the input line; submitting it appends a new item; item events
/// are forwarded to the addressed item, deletion removing it from the list;
/// switching to the list view materializes the sorter's best available
/// ordering into the item list; starting a sort hands the sorter a copy of
/// the items and switches to the choosing view; and a choice feeds one
/// decision to the sorter. Focus and window events touch no data and only ask
/// the shell to act.
pub fn update(app: &mut AppState, message: Message) -> (action: UiAction)
    requires
        old(app).wf(),
        message matches Message::ItemMessage(i, m) ==> (m is Delete ==> i < old(
            app,
        ).state.items.len()),
    ensures
        final(app).wf(),
        match message {
            Message::InputChanged(value) => {
                &&& final(app).state.input_value == value
                &&& final(app).state.items == old(app).state.items
                &&& final(app).state.sorter == old(app).state.sorter
                &&& final(app).mode == old(app).mode
                &&& action is Nothing
            },
            Message::CreateItem => {
                &&& (if old(app).state.input_value@.len() > 0 {
                    &&& final(app).state.items@.len() == old(app).state.items@.len() + 1
                    &&& final(app).state.items@.drop_last() == old(app).state.items@
                    &&& final(app).state.items@.last().description@ == old(app).state.input_value@
                    &&& final(app).state.items@.last().state is Idle
                    &&& final(app).state.input_value@.len() == 0
                } else {
                    &&& final(app).state.items == old(app).state.items
                    &&& final(app).state.input_value == old(app).state.input_value
                })
                &&& final(app).state.sorter == old(app).state.sorter
                &&& final(app).mode == old(app).mode
                &&& action is Nothing
            },
            Message::ItemMessage(i, m) => {
                &&& (if m is Delete {
                    final(app).state.items@ == old(app).state.items@.remove(i as int)
                } else if i < old(app).state.items@.len() {
                    final(app).state.items@ == old(app).state.items@.update(
                        i as int,
                        updated_item(old(app).state.items@[i as int], m),
                    )
                } else {
                    final(app).state.items == old(app).state.items
                })
                &&& final(app).state.input_value == old(app).state.input_value
                &&& final(app).state.sorter == old(app).state.sorter
                &&& final(app).mode == old(app).mode
                &&& action == (if m is Edit && i < old(app).state.items@.len() {
                    UiAction::FocusItem(i)
                } else {
                    UiAction::Nothing
                })
            },
            Message::TabPressed { shift } => {
                &&& *final(app) == *old(app)
                &&& action == (if shift {
                    UiAction::FocusPrevious
                } else {
                    UiAction::FocusNext
                })
            },
            Message::ToggleFullscreen => {
                &&& *final(app) == *old(app)
                &&& action is ToggleFullscreen
            },
            Message::ListView => {
                &&& final(app).state.items@ == old(app).state.sorter@.snapshot(
                    old(app).state.items@,
                )
                &&& final(app).state.input_value == old(app).state.input_value
                &&& final(app).state.sorter == old(app).state.sorter
                &&& final(app).mode is List
                &&& action is Nothing
            },
            Message::SortItems => {
                &&& final(app).state.sorter@ == start_model(old(app).state.items@)
                &&& final(app).state.items == old(app).state.items
                &&& final(app).state.input_value == old(app).state.input_value
                &&& final(app).mode is Choose
                &&& action is Nothing
            },
            Message::ChooseLeft => {
                &&& final(app).state.sorter@ == (if old(app).state.sorter@ is Comparing {
                    step_model(old(app).state.sorter@, Choice::Left)
                } else {
                    old(app).state.sorter@
                })
                &&& final(app).state.items == old(app).state.items
                &&& final(app).state.input_value == old(app).state.input_value
                &&& final(app).mode == old(app).mode
                &&& action is Nothing
            },
            Message::ChooseRight => {
                &&& final(app).state.sorter@ == (if old(app).state.sorter@ is Comparing {
                    step_model(old(app).state.sorter@, Choice::Right)
                } else {
                    old(app).state.sorter@
                })
                &&& final(app).state.items == old(app).state.items
                &&& final(app).state.input_value == old(app).state.input_value
                &&& final(app).mode == old(app).mode
                &&& action is Nothing
            },
        },
{
    match message {
        Message::InputChanged(value) => {
            app.state.input_value = value;
            UiAction::Nothing
        },
        Message::CreateItem => {
            if !app.state.input_value.as_str().is_empty() {
                let item = Item::new(app.state.input_value.as_str());
                app.state.items.push(item);
                app.state.input_value = String::new();
                proof {
                    assert(app.state.items@.drop_last() =~= old(app).state.items@);
                }
            }
            UiAction::Nothing
        },
        Message::ItemMessage(i, ItemMessage::Delete) => {
            app.state.items.remove(i);
            UiAction::Nothing
        },
        Message::ItemMessage(i, item_message) => {
            if i < app.state.items.len() {
                let should_focus = matches!(item_message, ItemMessage::Edit);
                let mut item = app.state.items[i].clone();
                item.update(item_message);
                app.state.items.set(i, item);
                if should_focus {
                    UiAction::FocusItem(i)
                } else {
                    UiAction::Nothing
                }
            } else {
                UiAction::Nothing
            }
        },
        Message::TabPressed { shift } => {
            if shift {
                UiAction::FocusPrevious
            } else {
                UiAction::FocusNext
            }
        },
        Message::ToggleFullscreen => UiAction::ToggleFullscreen,
        Message::ListView => {
            proof {
                crate::item::lemma_item_clone_faithful();
            }
            app.state.sorter.finish_sorting(&mut app.state.items);
            app.mode = AppMode::List;
            UiAction::Nothing
        },
        Message::SortItems => {
            proof {
                crate::item::lemma_item_clone_faithful();
            }
            let copy = app.state.items.clone();
            proof {
                assert(copy@ =~= app.state.items@);
            }
            app.state.sorter.start_sorting(copy);
            app.mode = AppMode::Choose;
            UiAction::Nothing
        },
        Message::ChooseLeft => {
            let _outcome = app.state.sorter.make_choice(Choice::Left);
            UiAction::Nothing
        },
        Message::ChooseRight => {
            let _outcome = app.state.sorter.make_choice(Choice::Right);
            UiAction::Nothing
        },
    }
}

} // verus!
