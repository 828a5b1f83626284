//! Menu-event routing: the classifier that turns a menu item id into the
//! structured action the UI layer acts on.
//!
//! Ids with an `encoding-`, `lang-` or `line-ending-` prefix carry their
//! suffix as a value (line endings uppercased); a fixed set of ids are
//! checkbox toggles; `open` and `open-folder` invoke pickers; everything
//! else is a generic action under its own id.

use vstd::prelude::*;
use vstd::string::StrSliceExecFns;
use crate::strutil::{spec_starts_with, str_starts_with, str_eq};

use crate::casefold::{upper_of, uppercase};

verus! {

/// Parsed form of a menu event id.
#[derive(Debug, Clone)]
pub enum MenuEventAction {
    /// Encoding change, carrying the encoding name.
    Encoding(String),
    /// Language change, carrying the language name.
    Language(String),
    /// Line-ending change, carrying the uppercased ending.
    LineEnding(String),
    /// Checkbox toggle, carrying the item id.
    Checkbox(String),
    /// Dialog command: open a file or folder picker.
    Dialog(String),
    /// Generic action, carrying the item id.
    Action(String),
}

/// Ghost image of a parsed menu action.
pub enum MenuActionModel {
    Encoding(Seq<char>),
    Language(Seq<char>),
    LineEnding(Seq<char>),
    Checkbox(Seq<char>),
    Dialog(Seq<char>),
    Action(Seq<char>),
}

impl View for MenuEventAction {
    type V = MenuActionModel;

    open spec fn view(&self) -> MenuActionModel {
        match self {
            MenuEventAction::Encoding(s) => MenuActionModel::Encoding(s@),
            MenuEventAction::Language(s) => MenuActionModel::Language(s@),
            MenuEventAction::LineEnding(s) => MenuActionModel::LineEnding(s@),
            MenuEventAction::Checkbox(s) => MenuActionModel::Checkbox(s@),
            MenuEventAction::Dialog(s) => MenuActionModel::Dialog(s@),
            MenuEventAction::Action(s) => MenuActionModel::Action(s@),
        }
    }
}

impl PartialEq for MenuEventAction {
    fn eq(&self, other: &MenuEventAction) -> (r: bool) {
        match (self, other) {
            (MenuEventAction::Encoding(a), MenuEventAction::Encoding(b)) => str_eq(a.as_str(), b.as_str()),
            (MenuEventAction::Language(a), MenuEventAction::Language(b)) => str_eq(a.as_str(), b.as_str()),
            (MenuEventAction::LineEnding(a), MenuEventAction::LineEnding(b)) => str_eq(a.as_str(), b.as_str()),
            (MenuEventAction::Checkbox(a), MenuEventAction::Checkbox(b)) => str_eq(a.as_str(), b.as_str()),
            (MenuEventAction::Dialog(a), MenuEventAction::Dialog(b)) => str_eq(a.as_str(), b.as_str()),
            (MenuEventAction::Action(a), MenuEventAction::Action(b)) => str_eq(a.as_str(), b.as_str()),
            _ => false,
        }
    }
}

impl vstd::std_specs::cmp::PartialEqSpecImpl for MenuEventAction {
    open spec fn obeys_eq_spec() -> bool {
        true
    }

    open spec fn eq_spec(&self, other: &MenuEventAction) -> bool {
        self@ == other@
    }
}

/// The menu item ids that represent checkbox toggles.
pub open spec fn checkbox_id(s: Seq<char>) -> bool {
    ||| s == "word-wrap"@
    ||| s == "show-whitespace"@
    ||| s == "show-eol"@
    ||| s == "show-non-printable"@
    ||| s == "show-wrap-symbol"@
    ||| s == "indent-guide"@
    ||| s == "show-line-numbers"@
    ||| s == "toggle-minimap"@
    ||| s == "distraction-free"@
    ||| s == "always-on-top"@
}

/// Decides whether an id is a checkbox toggle.
pub fn is_checkbox_id(s: &str) -> (r: bool)
    ensures
        r == checkbox_id(s@),
{
    str_eq(s, "word-wrap") || str_eq(s, "show-whitespace") || str_eq(s, "show-eol") || str_eq(
        s,
        "show-non-printable",
    ) || str_eq(s, "show-wrap-symbol") || str_eq(s, "indent-guide") || str_eq(
        s,
        "show-line-numbers",
    ) || str_eq(s, "toggle-minimap") || str_eq(s, "distraction-free") || str_eq(s, "always-on-top")
}

/// The checkbox toggle ids, in menu order.
pub fn checkbox_ids() -> (r: Vec<String>)
    ensures
        r@.len() == 10,
        forall|i: int| 0 <= i < r@.len() ==> checkbox_id((#[trigger] r@[i])@),
        r@[0]@ == "word-wrap"@,
        r@[1]@ == "show-whitespace"@,
        r@[2]@ == "show-eol"@,
        r@[3]@ == "show-non-printable"@,
        r@[4]@ == "show-wrap-symbol"@,
        r@[5]@ == "indent-guide"@,
        r@[6]@ == "show-line-numbers"@,
        r@[7]@ == "toggle-minimap"@,
        r@[8]@ == "distraction-free"@,
        r@[9]@ == "always-on-top"@,
{
    let mut v: Vec<String> = Vec::new();
    v.push("word-wrap".to_owned());
    v.push("show-whitespace".to_owned());
    v.push("show-eol".to_owned());
    v.push("show-non-printable".to_owned());
    v.push("show-wrap-symbol".to_owned());
    v.push("indent-guide".to_owned());
    v.push("show-line-numbers".to_owned());
    v.push("toggle-minimap".to_owned());
    v.push("distraction-free".to_owned());
    v.push("always-on-top".to_owned());
    v
}

/// What `parse_menu_event` returns for an id: prefixed ids carry their
/// suffix (line endings uppercased), checkbox ids toggle, `open` and
/// `open-folder` invoke dialogs, all else is a generic action.
pub open spec fn spec_parse_menu_event(s: Seq<char>) -> MenuActionModel {
    if spec_starts_with(s, "encoding-"@) {
        MenuActionModel::Encoding(s.skip("encoding-"@.len() as int))
    } else if spec_starts_with(s, "lang-"@) {
        MenuActionModel::Language(s.skip("lang-"@.len() as int))
    } else if spec_starts_with(s, "line-ending-"@) {
        MenuActionModel::LineEnding(upper_of(s.skip("line-ending-"@.len() as int)))
    } else if checkbox_id(s) {
        MenuActionModel::Checkbox(s)
    } else if s == "open"@ || s == "open-folder"@ {
        MenuActionModel::Dialog(s)
    } else {
        MenuActionModel::Action(s)
    }
}

/// Parses a menu event id into a structured action.
pub fn parse_menu_event(event_id: &str) -> (r: MenuEventAction)
    ensures
        r@ == spec_parse_menu_event(event_id@),
{
    proof {
        reveal_strlit("encoding-");
        reveal_strlit("lang-");
        reveal_strlit("line-ending-");
    }
    if str_starts_with(event_id, "encoding-") {
        let n = event_id.unicode_len();
        let suffix = event_id.substring_char(9, n);
        return MenuEventAction::Encoding(suffix.to_owned());
    }
    if str_starts_with(event_id, "lang-") {
        let n = event_id.unicode_len();
        let suffix = event_id.substring_char(5, n);
        return MenuEventAction::Language(suffix.to_owned());
    }
    if str_starts_with(event_id, "line-ending-") {
        let n = event_id.unicode_len();
        let suffix = event_id.substring_char(12, n);
        return MenuEventAction::LineEnding(uppercase(suffix));
    }
    if is_checkbox_id(event_id) {
        return MenuEventAction::Checkbox(event_id.to_owned());
    }
    if str_eq(event_id, "open") || str_eq(event_id, "open-folder") {
        return MenuEventAction::Dialog(event_id.to_owned());
    }
    MenuEventAction::Action(event_id.to_owned())
}

/// The event name and value emitted for a parsed action: the three
/// value-carrying kinds emit under a fixed name with their value; the
/// rest emit under their own id with no value.
pub fn menu_action_wire(action: &MenuEventAction) -> (r: (String, Option<String>))
    ensures
        action@ matches MenuActionModel::Encoding(v) ==> r.0@ == "encoding"@ && (r.1 matches Some(
            s,
        ) && s@ == v),
        action@ matches MenuActionModel::Language(v) ==> r.0@ == "language"@ && (r.1 matches Some(
            s,
        ) && s@ == v),
        action@ matches MenuActionModel::LineEnding(v) ==> r.0@ == "line-ending"@ && (
        r.1 matches Some(s) && s@ == v),
        action@ matches MenuActionModel::Checkbox(v) ==> r.0@ == v && r.1 is None,
        action@ matches MenuActionModel::Dialog(v) ==> r.0@ == v && r.1 is None,
        action@ matches MenuActionModel::Action(v) ==> r.0@ == v && r.1 is None,
{
    match action {
        MenuEventAction::Encoding(v) => ("encoding".to_owned(), Option::Some(v.clone())),
        MenuEventAction::Language(v) => ("language".to_owned(), Option::Some(v.clone())),
        MenuEventAction::LineEnding(v) => ("line-ending".to_owned(), Option::Some(v.clone())),
        MenuEventAction::Checkbox(id) => (id.clone(), Option::None),
        MenuEventAction::Dialog(id) => (id.clone(), Option::None),
        MenuEventAction::Action(id) => (id.clone(), Option::None),
    }
}

} // verus!
