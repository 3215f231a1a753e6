//! View-loop decisions: which page is shown, and what a key press or a
//! timer tick asks the view layer to do. The view layer itself performs
//! the actions; everything here is a pure decision on plain values.

use crate::model::Event;
use vstd::prelude::*;

verus! {

/// Which page the viewer currently shows.
pub enum Context {
    TopicListPage,
    TopicDetailPage,
}

/// A key press, reduced to the keys the viewer reacts to.
pub enum Key {
    Esc,
    Up,
    Down,
    Enter,
    Char(char),
    Other,
}

/// What the view layer is asked to do in response to one event.
#[derive(Clone, Copy, Debug, PartialEq, Eq, Structural)]
pub enum Action {
    /// Replace the status message with the fixed sample text.
    SetMessage,
    /// Extend the status message with a tick note.
    ExtendMessage,
    /// Move the topic selection up.
    SelectPrevious,
    /// Move the topic selection down.
    SelectNext,
    /// Open the detail page for the selected topic.
    SelectCurrent,
    /// Return to the topic list page.
    ShowTopicList,
    /// Refresh the detail page's data.
    ReloadTopicDetail,
    /// Do nothing.
    Ignore,
}

/// The decision taken on the topic-list page.
pub open spec fn spec_topic_list_action(event: &Event<Key>) -> Action {
    match event {
        Event::Input(key) => match key {
            Key::Char(c) => if *c == 's' {
                Action::SetMessage
            } else {
                Action::Ignore
            },
            Key::Up => Action::SelectPrevious,
            Key::Down => Action::SelectNext,
            Key::Enter => Action::SelectCurrent,
            _ => Action::Ignore,
        },
        Event::Tick => Action::ExtendMessage,
    }
}

/// The decision taken on the topic-detail page.
pub open spec fn spec_topic_detail_action(event: &Event<Key>) -> Action {
    match event {
        Event::Input(key) => match key {
            Key::Esc => Action::ShowTopicList,
            _ => Action::Ignore,
        },
        Event::Tick => Action::ReloadTopicDetail,
    }
}

/// The decision for an event, by the page it arrives on.
pub open spec fn spec_action_for(context: &Context, event: &Event<Key>) -> Action {
    match context {
        Context::TopicListPage => spec_topic_list_action(event),
        Context::TopicDetailPage => spec_topic_detail_action(event),
    }
}

/// Decides what the topic-list page does with one event.
pub fn topic_list_action(event: &Event<Key>) -> (r: Action)
    ensures
        r == spec_topic_list_action(event),
{
    match event {
        Event::Input(key) => match key {
            Key::Char(c) => if *c == 's' {
                Action::SetMessage
            } else {
                Action::Ignore
            },
            Key::Up => Action::SelectPrevious,
            Key::Down => Action::SelectNext,
            Key::Enter => Action::SelectCurrent,
            _ => Action::Ignore,
        },
        Event::Tick => Action::ExtendMessage,
    }
}

/// Decides what the topic-detail page does with one event.
pub fn topic_detail_action(event: &Event<Key>) -> (r: Action)
    ensures
        r == spec_topic_detail_action(event),
{
    match event {
        Event::Input(key) => match key {
            Key::Esc => Action::ShowTopicList,
            _ => Action::Ignore,
        },
        Event::Tick => Action::ReloadTopicDetail,
    }
}

/// Dispatches an event to the decision of the current page.
pub fn action_for(context: &Context, event: &Event<Key>) -> (r: Action)
    ensures
        r == spec_action_for(context, event),
{
    match context {
        Context::TopicListPage => topic_list_action(event),
        Context::TopicDetailPage => topic_detail_action(event),
    }
}

/// True exactly for the key that quits the viewer.
pub fn is_quit(key: &Key) -> (r: bool)
    ensures
        r == (key matches Key::Char(c) && c == 'q'),
{
    match key {
        Key::Char(c) => *c == 'q',
        _ => false,
    }
}

/// The topic selected after a move down: one past the current one,
/// wrapping to the top from the last entry or when nothing is selected.
pub fn next_topic_index(selected: Option<usize>, len: usize) -> (r: usize)
    requires
        len > 0,
    ensures
        r == (match selected {
            Some(i) => if i >= len - 1 {
                0usize
            } else {
                (i + 1) as usize
            },
            None => 0usize,
        }),
        r < len,
{
    match selected {
        Some(i) => if i >= len - 1 {
            0
        } else {
            i + 1
        },
        None => 0,
    }
}

/// The topic selected after a move up: one before the current one,
/// wrapping to the bottom from the first entry, or the top when nothing
/// is selected.
pub fn previous_topic_index(selected: Option<usize>, len: usize) -> (r: usize)
    requires
        len > 0,
    ensures
        r == (match selected {
            Some(i) => if i == 0 {
                (len - 1) as usize
            } else {
                (i - 1) as usize
            },
            None => 0usize,
        }),
{
    match selected {
        Some(i) => if i == 0 {
            len - 1
        } else {
            i - 1
        },
        None => 0,
    }
}

} // verus!
