//! The action set: what a config file may say, what is made of it, and what is
//! used where there is none.
//!
//! Everything here degrades rather than fails. Config sits on the path between a
//! dictation and the text that lands in the operator's document, so no file and
//! a file that is not TOML come to the built-in defaults, one bad entry is
//! dropped and the rest load, and no usable entry at all is a popup without
//! actions. Each of these comes with a warning.

use vstd::prelude::*;

use crate::action::{Action, ActionView};
use crate::place::{Base, Place};
use crate::place;
use crate::text;
use crate::toml_doc::{Node, NodeValue};
use crate::toml_doc;
use crate::voxtype_config;

verus! {

/// Used when an action does not set its own `timeout_ms`.
pub const DEFAULT_TIMEOUT_MS: u64 = 120_000;

// ---------------------------------------------------------------------------
// What a config file says
// ---------------------------------------------------------------------------

/// A config file, as far as it is read. An entry that does not fit is told by
/// where it is at fault.
#[derive(Debug)]
pub struct RawConfig {
    pub timeout_ms: Option<u64>,
    pub actions: Vec<Result<RawAction, String>>,
}

/// One entry of a config file, before it is checked.
#[derive(Debug)]
pub struct RawAction {
    pub label: Option<String>,
    pub key: Option<String>,
    pub command: Option<String>,
    pub timeout_ms: Option<u64>,
}

/// The model of a [`RawAction`].
pub struct RawActionView {
    pub label: Option<Seq<char>>,
    pub key: Option<Seq<char>>,
    pub command: Option<Seq<char>>,
    pub timeout_ms: Option<u64>,
}

impl View for RawAction {
    type V = RawActionView;

    open spec fn view(&self) -> RawActionView {
        RawActionView {
            label: text::opt_text(self.label),
            key: text::opt_text(self.key),
            command: text::opt_text(self.command),
            timeout_ms: self.timeout_ms,
        }
    }
}

/// The model of a [`RawConfig`].
pub struct RawConfigView {
    pub timeout_ms: Option<u64>,
    pub actions: Seq<Result<RawActionView, Seq<char>>>,
}

/// The model of an entry.
pub open spec fn entry_view(e: Result<RawAction, String>) -> Result<RawActionView, Seq<char>> {
    match e {
        Ok(a) => Ok(a@),
        Err(place) => Err(place@),
    }
}

/// The models of a list of entries.
pub open spec fn entry_views(list: Seq<Result<RawAction, String>>) -> Seq<
    Result<RawActionView, Seq<char>>,
> {
    list.map_values(|e: Result<RawAction, String>| entry_view(e))
}

impl View for RawConfig {
    type V = RawConfigView;

    open spec fn view(&self) -> RawConfigView {
        RawConfigView {
            timeout_ms: self.timeout_ms,
            actions: entry_views(self.actions@),
        }
    }
}

/// A field that holds text where it is given; else where the value that is none
/// starts.
pub open spec fn as_text(node: Option<Node>) -> Result<Option<Seq<char>>, usize> {
    match node {
        None => Ok(None),
        Some(n) => match n.value {
            NodeValue::Text(s) => Ok(Some(s@)),
            _ => Err(n.at),
        },
    }
}

/// A field that holds a number of milliseconds where it is given; else where the
/// value that is none starts.
pub open spec fn as_ms(node: Option<Node>) -> Result<Option<u64>, usize> {
    match node {
        None => Ok(None),
        Some(n) => match n.value {
            NodeValue::Integer { digits, radix } => if 2 <= radix <= 36 {
                match text::bounded(text::signed(digits@, radix as int), u64::MAX as int) {
                    Some(v) => Ok(Some(v as u64)),
                    None => Err(n.at),
                }
            } else {
                Err(n.at)
            },
            _ => Err(n.at),
        },
    }
}

/// The element at `i`, where there is one.
pub open spec fn nth(nodes: Seq<Node>, i: int) -> Option<Node> {
    if 0 <= i < nodes.len() {
        Some(nodes[i])
    } else {
        None
    }
}

/// Where the value of a field of an entry is at fault. A field that means
/// nothing is at fault where it holds a number that cannot be represented.
pub open spec fn field_fault(name: Seq<char>, node: Node) -> Option<usize> {
    if name == "label"@ || name == "key"@ || name == "command"@ {
        match as_text(Some(node)) {
            Ok(_) => None,
            Err(at) => Some(at),
        }
    } else if name == "timeout_ms"@ {
        match as_ms(Some(node)) {
            Ok(_) => None,
            Err(at) => Some(at),
        }
    } else {
        toml_doc::fault(node)
    }
}

/// Where the first field from `i` on that is at fault is so.
pub open spec fn first_field_fault(fields: Seq<(String, Node)>, i: int) -> Option<usize>
    decreases fields.len() - i,
{
    if i < 0 || i >= fields.len() {
        None
    } else {
        match field_fault(fields[i].0@, fields[i].1) {
            Some(at) => Some(at),
            None => first_field_fault(fields, i + 1),
        }
    }
}

/// The fields of an entry written as a table.
pub open spec fn table_fields(fields: Seq<(String, Node)>) -> Result<RawActionView, usize> {
    match as_text(toml_doc::entry(fields, "command"@)) {
        Err(at) => Err(at),
        Ok(command) => match as_text(toml_doc::entry(fields, "key"@)) {
            Err(at) => Err(at),
            Ok(key) => match as_text(toml_doc::entry(fields, "label"@)) {
                Err(at) => Err(at),
                Ok(label) => match as_ms(toml_doc::entry(fields, "timeout_ms"@)) {
                    Err(at) => Err(at),
                    Ok(timeout_ms) => Ok(RawActionView { label, key, command, timeout_ms }),
                },
            },
        },
    }
}

/// An entry written as a table, or where the first of its fields that is at
/// fault is so.
pub open spec fn table_entry(fields: Seq<(String, Node)>) -> Result<RawActionView, usize> {
    match first_field_fault(fields, 0) {
        Some(at) => Err(at),
        None => table_fields(fields),
    }
}

/// An entry written as an array: label, key, command, timeout.
pub open spec fn array_entry(items: Seq<Node>) -> Result<RawActionView, usize> {
    match as_text(nth(items, 0)) {
        Err(at) => Err(at),
        Ok(label) => match as_text(nth(items, 1)) {
            Err(at) => Err(at),
            Ok(key) => match as_text(nth(items, 2)) {
                Err(at) => Err(at),
                Ok(command) => match as_ms(nth(items, 3)) {
                    Err(at) => Err(at),
                    Ok(timeout_ms) => Ok(RawActionView { label, key, command, timeout_ms }),
                },
            },
        },
    }
}

/// An entry, however it is written. A date stands for an entry without fields.
pub open spec fn any_entry(node: Node) -> Result<RawActionView, usize> {
    match node.value {
        NodeValue::Table(fields) => table_entry(fields@),
        NodeValue::Array(items) => array_entry(items@),
        NodeValue::Datetime => Ok(
            RawActionView { label: None, key: None, command: None, timeout_ms: None },
        ),
        _ => Err(node.at),
    }
}

/// An entry, or where in the file it is at fault.
pub open spec fn placed_entry(file: Seq<u8>, node: Node) -> Result<RawActionView, Seq<char>> {
    match any_entry(node) {
        Ok(e) => Ok(e),
        Err(at) => Err(toml_doc::place_in(file, at as int)),
    }
}

/// The entries under `actions`. Where there is no list, the place of what stands
/// there instead.
pub open spec fn action_entries(file: Seq<u8>, node: Option<Node>) -> Result<
    Seq<Result<RawActionView, Seq<char>>>,
    usize,
> {
    match node {
        None => Ok(seq![]),
        Some(n) => match n.value {
            NodeValue::Array(items) => Ok(items@.map_values(|e: Node| placed_entry(file, e))),
            _ => Err(n.at),
        },
    }
}

/// Where the value of a key at the top of a document is at fault. A key that
/// means nothing is at fault where it holds a number that cannot be represented.
pub open spec fn key_fault(key: Seq<char>, node: Node) -> Option<usize> {
    if key == "actions"@ {
        if node.value is Array {
            None
        } else {
            Some(node.at)
        }
    } else if key == "timeout_ms"@ {
        match as_ms(Some(node)) {
            Ok(_) => None,
            Err(at) => Some(at),
        }
    } else {
        toml_doc::fault(node)
    }
}

/// Where the first key from `i` on that is at fault is so.
pub open spec fn first_key_fault(entries: Seq<(String, Node)>, i: int) -> Option<usize>
    decreases entries.len() - i,
{
    if i < 0 || i >= entries.len() {
        None
    } else {
        match key_fault(entries[i].0@, entries[i].1) {
            Some(at) => Some(at),
            None => first_key_fault(entries, i + 1),
        }
    }
}

/// What the keys of a document say.
pub open spec fn config_keys(file: Seq<u8>, entries: Seq<(String, Node)>) -> Result<
    RawConfigView,
    usize,
> {
    match action_entries(file, toml_doc::entry(entries, "actions"@)) {
        Err(at) => Err(at),
        Ok(actions) => match as_ms(toml_doc::entry(entries, "timeout_ms"@)) {
            Err(at) => Err(at),
            Ok(timeout_ms) => Ok(RawConfigView { timeout_ms, actions }),
        },
    }
}

/// What the document in a file says, or where the first value at its top that
/// does not fit starts. An entry that does not fit costs that entry alone.
pub open spec fn config_in(file: Seq<u8>, root: Node) -> Result<RawConfigView, usize> {
    match root.value {
        NodeValue::Table(entries) => match first_key_fault(entries@, 0) {
            Some(at) => Err(at),
            None => config_keys(file, entries@),
        },
        _ => Err(root.at),
    }
}

fn read_text(node: Option<&Node>) -> (r: Result<Option<String>, usize>)
    ensures
        ({
            let n = match node {
                Some(x) => Some(*x),
                None => None,
            };
            match r {
                Ok(t) => as_text(n) == Ok::<Option<Seq<char>>, usize>(text::opt_text(t)),
                Err(at) => as_text(n) == Err::<Option<Seq<char>>, usize>(at),
            }
        }),
{
    match node {
        None => Ok(None),
        Some(n) => match &n.value {
            NodeValue::Text(s) => Ok(Some(s.clone())),
            _ => Err(n.at),
        },
    }
}

fn read_ms(node: Option<&Node>) -> (r: Result<Option<u64>, usize>)
    ensures
        r == as_ms(
            match node {
                Some(x) => Some(*x),
                None => None,
            },
        ),
{
    match node {
        None => Ok(None),
        Some(n) => match &n.value {
            NodeValue::Integer { digits, radix } => {
                if *radix < 2 || *radix > 36 {
                    return Err(n.at);
                }
                match text::parse_signed(digits.as_str(), *radix, u64::MAX) {
                    Some(v) => Ok(Some(v)),
                    None => Err(n.at),
                }
            },
            _ => Err(n.at),
        },
    }
}

fn element(items: &Vec<Node>, i: usize) -> (r: Option<&Node>)
    ensures
        match r {
            Some(n) => nth(items@, i as int) == Some(*n),
            None => nth(items@, i as int) is None,
        },
{
    if i < items.len() {
        Some(&items[i])
    } else {
        None
    }
}

/// What a reading came to, in the model.
pub open spec fn entry_result(r: Result<RawAction, usize>) -> Result<RawActionView, usize> {
    match r {
        Ok(a) => Ok(a@),
        Err(at) => Err(at),
    }
}

fn find_field_fault(name: &str, node: &Node) -> (r: Option<usize>)
    ensures
        r == field_fault(name@, *node),
{
    if text::same(name, "label") || text::same(name, "key") || text::same(name, "command") {
        match read_text(Some(node)) {
            Ok(_) => None,
            Err(at) => Some(at),
        }
    } else if text::same(name, "timeout_ms") {
        match read_ms(Some(node)) {
            Ok(_) => None,
            Err(at) => Some(at),
        }
    } else {
        toml_doc::find_fault(node)
    }
}

fn read_table_entry(fields: &Vec<(String, Node)>) -> (r: Result<RawAction, usize>)
    ensures
        entry_result(r) == table_entry(fields@),
{
    let mut i: usize = 0;
    while i < fields.len()
        invariant
            i <= fields@.len(),
            first_field_fault(fields@, 0) == first_field_fault(fields@, i as int),
        decreases fields@.len() - i,
    {
        match find_field_fault(fields[i].0.as_str(), &fields[i].1) {
            Some(at) => return Err(at),
            None => {},
        }
        i = i + 1;
    }
    let command = match read_text(toml_doc::find_entry(fields, "command")) {
        Err(at) => return Err(at),
        Ok(t) => t,
    };
    let key = match read_text(toml_doc::find_entry(fields, "key")) {
        Err(at) => return Err(at),
        Ok(t) => t,
    };
    let label = match read_text(toml_doc::find_entry(fields, "label")) {
        Err(at) => return Err(at),
        Ok(t) => t,
    };
    let timeout_ms = match read_ms(toml_doc::find_entry(fields, "timeout_ms")) {
        Err(at) => return Err(at),
        Ok(t) => t,
    };
    Ok(RawAction { label, key, command, timeout_ms })
}

fn read_array_entry(items: &Vec<Node>) -> (r: Result<RawAction, usize>)
    ensures
        entry_result(r) == array_entry(items@),
{
    let label = match read_text(element(items, 0)) {
        Err(at) => return Err(at),
        Ok(t) => t,
    };
    let key = match read_text(element(items, 1)) {
        Err(at) => return Err(at),
        Ok(t) => t,
    };
    let command = match read_text(element(items, 2)) {
        Err(at) => return Err(at),
        Ok(t) => t,
    };
    let timeout_ms = match read_ms(element(items, 3)) {
        Err(at) => return Err(at),
        Ok(t) => t,
    };
    Ok(RawAction { label, key, command, timeout_ms })
}

fn read_entry(node: &Node) -> (r: Result<RawAction, usize>)
    ensures
        entry_result(r) == any_entry(*node),
{
    match &node.value {
        NodeValue::Table(fields) => read_table_entry(fields),
        NodeValue::Array(items) => read_array_entry(items),
        NodeValue::Datetime => Ok(
            RawAction { label: None, key: None, command: None, timeout_ms: None },
        ),
        _ => Err(node.at),
    }
}

/// The entries under `actions`, in the model.
pub open spec fn entries_result(r: Result<Vec<Result<RawAction, String>>, usize>) -> Result<
    Seq<Result<RawActionView, Seq<char>>>,
    usize,
> {
    match r {
        Ok(list) => Ok(entry_views(list@)),
        Err(at) => Err(at),
    }
}

fn read_actions(text: &str, node: Option<&Node>) -> (r: Result<
    Vec<Result<RawAction, String>>,
    usize,
>)
    ensures
        entries_result(r) == action_entries(
            vstd::utf8::encode_utf8(text@),
            match node {
                Some(x) => Some(*x),
                None => None,
            },
        ),
{
    let ghost file = vstd::utf8::encode_utf8(text@);
    let mut actions: Vec<Result<RawAction, String>> = Vec::new();
    assert(entry_views(actions@) =~= seq![]);
    let n = match node {
        Some(n) => n,
        None => return Ok(actions),
    };
    let items = match &n.value {
        NodeValue::Array(items) => items,
        _ => return Err(n.at),
    };
    let ghost want = items@.map_values(|e: Node| placed_entry(file, e));
    let mut i: usize = 0;
    assert(entry_views(actions@) =~= want.take(0));
    while i < items.len()
        invariant
            i <= items@.len(),
            file == vstd::utf8::encode_utf8(text@),
            want == items@.map_values(|e: Node| placed_entry(file, e)),
            entry_views(actions@) == want.take(i as int),
        decreases items@.len() - i,
    {
        let ghost before = entry_views(actions@);
        let e = match read_entry(&items[i]) {
            Ok(a) => Ok(a),
            Err(at) => Err(toml_doc::locate(text, at)),
        };
        actions.push(e);
        assert(entry_view(e) == want[i as int]);
        assert(entry_views(actions@) =~= before.push(want[i as int]));
        assert(want.take(i + 1) =~= want.take(i as int).push(want[i as int]));
        i = i + 1;
    }
    assert(want.take(i as int) =~= want);
    Ok(actions)
}

fn find_key_fault(key: &str, node: &Node) -> (r: Option<usize>)
    ensures
        r == key_fault(key@, *node),
{
    if text::same(key, "actions") {
        match &node.value {
            NodeValue::Array(_) => None,
            _ => Some(node.at),
        }
    } else if text::same(key, "timeout_ms") {
        match read_ms(Some(node)) {
            Ok(_) => None,
            Err(at) => Some(at),
        }
    } else {
        toml_doc::find_fault(node)
    }
}

/// Read the fields of a config out of the document that `text` was parsed into.
/// The error is the byte at which the first value at its top that does not fit
/// starts.
pub fn read_config(text: &str, root: &Node) -> (r: Result<RawConfig, usize>)
    ensures
        match r {
            Ok(c) => config_in(vstd::utf8::encode_utf8(text@), *root) == Ok::<
                RawConfigView,
                usize,
            >(c@),
            Err(at) => config_in(vstd::utf8::encode_utf8(text@), *root) == Err::<
                RawConfigView,
                usize,
            >(at),
        },
{
    let entries = match &root.value {
        NodeValue::Table(entries) => entries,
        _ => return Err(root.at),
    };
    let mut i: usize = 0;
    while i < entries.len()
        invariant
            i <= entries@.len(),
            root.value matches NodeValue::Table(v) && *entries == v,
            first_key_fault(entries@, 0) == first_key_fault(entries@, i as int),
        decreases entries@.len() - i,
    {
        match find_key_fault(entries[i].0.as_str(), &entries[i].1) {
            Some(at) => return Err(at),
            None => {},
        }
        i = i + 1;
    }
    let actions = match read_actions(text, toml_doc::find_entry(entries, "actions")) {
        Err(at) => return Err(at),
        Ok(actions) => actions,
    };
    match read_ms(toml_doc::find_entry(entries, "timeout_ms")) {
        Err(at) => Err(at),
        Ok(timeout_ms) => Ok(RawConfig { timeout_ms, actions }),
    }
}

// ---------------------------------------------------------------------------
// What is made of it
// ---------------------------------------------------------------------------

/// A checked action set, plus the warnings produced while checking it.
#[derive(Debug)]
pub struct Loaded {
    pub actions: Vec<Action>,
    /// The time each action may take, in milliseconds.
    pub timeouts: Vec<u64>,
    pub warnings: Vec<String>,
    /// True when the built-in defaults were used because config was absent or
    /// unusable.
    pub used_defaults: bool,
}

/// The model of a [`Loaded`].
pub struct LoadedView {
    pub actions: Seq<ActionView>,
    pub timeouts: Seq<u64>,
    pub warnings: Seq<Seq<char>>,
    pub used_defaults: bool,
}

impl View for Loaded {
    type V = LoadedView;

    open spec fn view(&self) -> LoadedView {
        LoadedView {
            actions: crate::action::action_views(self.actions@),
            timeouts: self.timeouts@,
            warnings: text::texts(self.warnings@),
            used_defaults: self.used_defaults,
        }
    }
}

/// The time the action at `i` may take, in milliseconds.
pub open spec fn time_of(timeouts: Seq<u64>, i: int) -> u64 {
    if i < timeouts.len() {
        timeouts[i]
    } else {
        DEFAULT_TIMEOUT_MS
    }
}

impl Loaded {
    /// The time the action at `index` may take, in milliseconds.
    pub fn timeout_for(&self, index: usize) -> (r: u64)
        ensures
            r == time_of(self@.timeouts, index as int),
    {
        if index < self.timeouts.len() {
            self.timeouts[index]
        } else {
            DEFAULT_TIMEOUT_MS
        }
    }
}

/// `c` can be a hotkey.
pub open spec fn is_hotkey(c: char) -> bool {
    '1' <= c <= '9'
}

/// One of the actions has the hotkey `c`.
pub open spec fn claimed(actions: Seq<ActionView>, c: char) -> bool {
    exists|i: int| 0 <= i < actions.len() && (#[trigger] actions[i]).key == Some(c)
}

/// What an entry comes to.
pub enum Verdict {
    /// It is an action.
    Accept(ActionView),
    /// It is skipped, with this warning.
    Skip(Seq<char>),
}

/// The label of the entry at a 1-based position.
pub open spec fn entry_label(e: RawActionView, position: int) -> Seq<char> {
    match e.label {
        Some(label) => label,
        None => "action "@ + text::decimal(position as nat),
    }
}

/// How a warning names the entry at a 1-based position.
pub open spec fn entry_name(e: RawActionView, position: int) -> Seq<char> {
    "action "@ + text::decimal(position as nat) + " (\""@ + entry_label(e, position) + "\")"@
}

/// What an entry that fits comes to at a 1-based position, after `actions` were
/// accepted.
///
/// A key is optional; an invalid key is not. Dropping a bad key would leave a
/// hotkey in the config that quietly does nothing, so the entry is refused.
pub open spec fn fitting_verdict(
    e: RawActionView,
    position: int,
    actions: Seq<ActionView>,
) -> Verdict {
    let label = entry_label(e, position);
    let name = entry_name(e, position);
    match e.command {
        None => Verdict::Skip(name + " has no command — skipped"@),
        Some(command) => if text::blank(command) {
            Verdict::Skip(name + " has no command — skipped"@)
        } else {
            match e.key {
                None => Verdict::Accept(ActionView { label, key: None, command }),
                Some(k) => if k.len() == 0 {
                    Verdict::Accept(ActionView { label, key: None, command })
                } else if k.len() == 1 && is_hotkey(k[0]) {
                    if claimed(actions, k[0]) {
                        Verdict::Skip(name + " reuses hotkey "@ + seq![k[0]] + " — skipped"@)
                    } else {
                        Verdict::Accept(ActionView { label, key: Some(k[0]), command })
                    }
                } else {
                    Verdict::Skip(name + " has hotkey \""@ + k + "\", must be 1-9 — skipped"@)
                },
            }
        },
    }
}

/// What the entry at a 1-based position comes to, after `actions` were accepted.
pub open spec fn verdict(
    e: Result<RawActionView, Seq<char>>,
    position: int,
    actions: Seq<ActionView>,
) -> Verdict {
    match e {
        Ok(a) => fitting_verdict(a, position, actions),
        Err(place) => Verdict::Skip(
            "action "@ + text::decimal(position as nat) + " is malformed at "@ + place
                + " — skipped"@,
        ),
    }
}

/// The time an entry asks for, in milliseconds.
pub open spec fn time_asked(e: Result<RawActionView, Seq<char>>, global: u64) -> u64 {
    match e {
        Ok(a) => match a.timeout_ms {
            Some(ms) => ms,
            None => global,
        },
        Err(_) => global,
    }
}

/// What the first `n` entries come to.
pub open spec fn checked(
    entries: Seq<Result<RawActionView, Seq<char>>>,
    n: int,
    global: u64,
) -> LoadedView
    decreases n,
{
    if n <= 0 {
        LoadedView { actions: seq![], timeouts: seq![], warnings: seq![], used_defaults: false }
    } else {
        let before = checked(entries, n - 1, global);
        let e = entries[n - 1];
        match verdict(e, n, before.actions) {
            Verdict::Accept(a) => LoadedView {
                actions: before.actions.push(a),
                timeouts: before.timeouts.push(time_asked(e, global)),
                ..before
            },
            Verdict::Skip(w) => LoadedView { warnings: before.warnings.push(w), ..before },
        }
    }
}

/// The warnings for the keys that mean nothing to a config.
pub open spec fn unknown_keys(keys: Seq<Seq<char>>) -> Seq<Seq<char>>
    decreases keys.len(),
{
    if keys.len() == 0 {
        seq![]
    } else {
        let before = unknown_keys(keys.drop_last());
        let key = keys.last();
        if key == "actions"@ || key == "timeout_ms"@ {
            before
        } else {
            let hint = if key == "action"@ {
                " (did you mean [[actions]]?)"@
            } else {
                ""@
            };
            before.push("config has unknown key \""@ + key + "\""@ + hint + " — ignored"@)
        }
    }
}

/// The keys that are known to stand at the top of a document.
pub open spec fn known_keys(keys: Option<Seq<Seq<char>>>) -> Seq<Seq<char>> {
    match keys {
        Some(list) => list,
        None => seq![],
    }
}

/// The warning for a config without a usable entry.
pub open spec fn no_actions_warning() -> Seq<char> {
    "config defines no usable actions — the popup will edit and accept only"@
}

/// The action set that a config comes to, whose document has `keys` at its top.
pub open spec fn action_set(raw: RawConfigView, keys: Seq<Seq<char>>) -> LoadedView {
    let global = match raw.timeout_ms {
        Some(ms) => ms,
        None => DEFAULT_TIMEOUT_MS,
    };
    let set = checked(raw.actions, raw.actions.len() as int, global);
    let warnings = unknown_keys(keys) + set.warnings;
    LoadedView {
        warnings: if set.actions.len() == 0 {
            warnings.push(no_actions_warning())
        } else {
            warnings
        },
        ..set
    }
}

fn has_key(actions: &Vec<Action>, c: char) -> (r: bool)
    ensures
        r == claimed(crate::action::action_views(actions@), c),
{
    let ghost views = crate::action::action_views(actions@);
    let mut i: usize = 0;
    while i < actions.len()
        invariant
            i <= actions@.len(),
            views == crate::action::action_views(actions@),
            forall|j: int| 0 <= j < i ==> (#[trigger] views[j]).key != Some(c),
        decreases actions@.len() - i,
    {
        assert(views[i as int] == actions@[i as int]@);
        match actions[i].key {
            Some(k) => {
                if k == c {
                    return true;
                }
            },
            None => {},
        }
        i = i + 1;
    }
    false
}

fn name_entry(label: &str, position: usize) -> (r: String)
    ensures
        r@ == "action "@ + text::decimal(position as nat) + " (\""@ + label@ + "\")"@,
{
    let mut name = "action ".to_string();
    name.append(text::to_decimal(position as u128).as_str());
    name.append(" (\"");
    name.append(label);
    name.append("\")");
    name
}

/// What one entry that fits comes to, after `actions` were accepted.
fn check_fitting(e: &RawAction, position: usize, actions: &Vec<Action>) -> (r: Result<
    Action,
    String,
>)
    ensures
        match r {
            Ok(a) => fitting_verdict(
                e@,
                position as int,
                crate::action::action_views(actions@),
            ) == Verdict::Accept(a@),
            Err(w) => fitting_verdict(
                e@,
                position as int,
                crate::action::action_views(actions@),
            ) == Verdict::Skip(w@),
        },
{
    let label = match &e.label {
        Some(label) => label.clone(),
        None => {
            let mut label = "action ".to_string();
            label.append(text::to_decimal(position as u128).as_str());
            label
        },
    };
    let mut warning = name_entry(label.as_str(), position);
    let command = match &e.command {
        Some(command) => command.clone(),
        None => {
            warning.append(" has no command — skipped");
            return Err(warning);
        },
    };
    if text::is_blank(command.as_str()) {
        warning.append(" has no command — skipped");
        return Err(warning);
    }
    match &e.key {
        None => Ok(Action { label, key: None, command }),
        Some(k) => {
            let chars = text::chars_of(k.as_str());
            if chars.len() == 0 {
                return Ok(Action { label, key: None, command });
            }
            if chars.len() == 1 && '1' <= chars[0] && chars[0] <= '9' {
                let c: char = chars[0];
                if has_key(actions, c) {
                    warning.append(" reuses hotkey ");
                    let ghost before = warning@;
                    warning.push(c);
                    assert(warning@ =~= before + seq![c]);
                    warning.append(" — skipped");
                    return Err(warning);
                }
                return Ok(Action { label, key: Some(c), command });
            }
            warning.append(" has hotkey \"");
            warning.append(k.as_str());
            warning.append("\", must be 1-9 — skipped");
            Err(warning)
        },
    }
}

/// What one entry comes to, after `actions` were accepted.
fn check_entry(e: &Result<RawAction, String>, position: usize, actions: &Vec<Action>) -> (r: Result<
    Action,
    String,
>)
    ensures
        match r {
            Ok(a) => verdict(
                entry_view(*e),
                position as int,
                crate::action::action_views(actions@),
            ) == Verdict::Accept(a@),
            Err(w) => verdict(
                entry_view(*e),
                position as int,
                crate::action::action_views(actions@),
            ) == Verdict::Skip(w@),
        },
{
    match e {
        Ok(a) => check_fitting(a, position, actions),
        Err(place) => {
            let mut w = "action ".to_string();
            w.append(text::to_decimal(position as u128).as_str());
            w.append(" is malformed at ");
            w.append(place.as_str());
            w.append(" — skipped");
            Err(w)
        },
    }
}

fn read_time(e: &Result<RawAction, String>, global: u64) -> (r: u64)
    ensures
        r == time_asked(entry_view(*e), global),
{
    match e {
        Ok(a) => match a.timeout_ms {
            Some(ms) => ms,
            None => global,
        },
        Err(_) => global,
    }
}

fn warn_unknown(keys: &Vec<String>) -> (r: Vec<String>)
    ensures
        text::texts(r@) == unknown_keys(text::texts(keys@)),
{
    let ghost all = text::texts(keys@);
    let mut warnings: Vec<String> = Vec::new();
    let mut i: usize = 0;
    assert(all.take(0).len() == 0);
    assert(text::texts(warnings@) =~= unknown_keys(all.take(0)));
    while i < keys.len()
        invariant
            i <= keys@.len(),
            all == text::texts(keys@),
            text::texts(warnings@) == unknown_keys(all.take(i as int)),
        decreases keys@.len() - i,
    {
        let key = keys[i].as_str();
        proof {
            let next = all.take(i + 1);
            assert(next.drop_last() =~= all.take(i as int));
            assert(next.last() == key@);
        }
        if !text::same(key, "actions") && !text::same(key, "timeout_ms") {
            let hint: &str = if text::same(key, "action") {
                " (did you mean [[actions]]?)"
            } else {
                ""
            };
            let mut w = "config has unknown key \"".to_string();
            w.append(key);
            w.append("\"");
            w.append(hint);
            w.append(" — ignored");
            let ghost before = text::texts(warnings@);
            warnings.push(w);
            assert(text::texts(warnings@) =~= before.push(w@));
        }
        i = i + 1;
    }
    assert(all.take(all.len() as int) =~= all);
    warnings
}

/// Check the entries of a config, whose document has `keys` at its top.
///
/// An entry that cannot be used is skipped with a warning, and the rest load. A
/// config without a usable entry is legal, but never silent.
pub fn check_config(raw: &RawConfig, keys: &Vec<String>) -> (r: Loaded)
    ensures
        r@ == action_set(raw@, text::texts(keys@)),
{
    let ghost entries = raw@.actions;
    let ghost unknown = unknown_keys(text::texts(keys@));
    let global: u64 = match raw.timeout_ms {
        Some(ms) => ms,
        None => DEFAULT_TIMEOUT_MS,
    };
    let mut out = Loaded {
        actions: Vec::new(),
        timeouts: Vec::new(),
        warnings: warn_unknown(keys),
        used_defaults: false,
    };
    let mut i: usize = 0;
    assert(crate::action::action_views(out.actions@) =~= seq![]);
    assert(unknown + Seq::<Seq<char>>::empty() =~= unknown);
    while i < raw.actions.len()
        invariant
            i <= raw.actions@.len(),
            entries == entry_views(raw.actions@),
            crate::action::action_views(out.actions@) == checked(entries, i as int, global).actions,
            out.timeouts@ == checked(entries, i as int, global).timeouts,
            text::texts(out.warnings@) == unknown + checked(entries, i as int, global).warnings,
            !out.used_defaults,
        decreases raw.actions@.len() - i,
    {
        let ghost before = checked(entries, i as int, global);
        let e = &raw.actions[i];
        assert(entry_view(*e) == entries[i as int]);
        match check_entry(e, i + 1, &out.actions) {
            Ok(a) => {
                out.actions.push(a);
                out.timeouts.push(read_time(e, global));
                assert(crate::action::action_views(out.actions@) =~= before.actions.push(a@));
            },
            Err(w) => {
                let ghost warned = text::texts(out.warnings@);
                out.warnings.push(w);
                assert(text::texts(out.warnings@) =~= warned.push(w@));
                assert(warned.push(w@) =~= unknown + before.warnings.push(w@));
            },
        }
        i = i + 1;
    }
    proof {
        law_checking_uses_no_defaults(entries, i as int, global);
    }
    if out.actions.len() == 0 {
        let ghost warned = text::texts(out.warnings@);
        let w = "config defines no usable actions — the popup will edit and accept only".to_string();
        out.warnings.push(w);
        assert(text::texts(out.warnings@) =~= warned.push(w@));
    }
    out
}

/// Checking the entries of a config never falls back to the built-in set.
pub proof fn law_checking_uses_no_defaults(
    entries: Seq<Result<RawActionView, Seq<char>>>,
    n: int,
    global: u64,
)
    ensures
        !checked(entries, n, global).used_defaults,
    decreases n,
{
    if n > 0 {
        law_checking_uses_no_defaults(entries, n - 1, global);
    }
}

// ---------------------------------------------------------------------------
// The built-in set
// ---------------------------------------------------------------------------

/// The rule that every prompt but a translation carries.
///
/// It speaks of the reply rather than of the rewrite, and stands once: a prompt
/// that mentions language twice makes a small model pick one instead of keeping
/// the one it was given.
pub const KEEP_LANGUAGE: &'static str = " Reply in the SAME language as the input text. Never translate it.";

/// What a built-in command starts with. `jq -Rs` reads the whole transcript and
/// escapes it, so nothing in a dictation can break out of the request.
pub const COMMAND_HEAD: &'static str = "jq -Rs --arg m hermes3:8b --arg p '";

/// What a built-in command ends with.
pub const COMMAND_TAIL: &'static str = " Output only the resulting text, with no preamble, no explanation and no quotation marks.' '{model:$m,prompt:($p+\"\\n\\n\"+.),stream:false}' | curl -sf --max-time 110 http://localhost:11434/api/generate -d @- | jq -r '.response'";

/// The command that puts `prompt` and `rule` before a transcript.
pub open spec fn built_in_command(prompt: Seq<char>, rule: Seq<char>) -> Seq<char> {
    COMMAND_HEAD@ + prompt + rule + COMMAND_TAIL@
}

/// The built-in actions.
pub open spec fn default_actions() -> Seq<ActionView> {
    seq![
        ActionView {
            label: "Tidy up"@,
            key: Some('1'),
            command: built_in_command(
                "Fix grammar, spelling and punctuation in this dictation. Preserve the meaning."@,
                KEEP_LANGUAGE@,
            ),
        },
        ActionView {
            label: "Tidy up + remove filler"@,
            key: Some('2'),
            command: built_in_command(
                "Fix grammar and punctuation in this dictation and remove filler words and false starts. Preserve the meaning."@,
                KEEP_LANGUAGE@,
            ),
        },
        ActionView {
            label: "Translate to English"@,
            key: Some('3'),
            command: built_in_command(
                "Translate this text into English. If it is already in English, return it unchanged."@,
                ""@,
            ),
        },
        ActionView {
            label: "Make it concise"@,
            key: Some('4'),
            command: built_in_command(
                "Rewrite this text to be shorter and clearer while keeping every point."@,
                KEEP_LANGUAGE@,
            ),
        },
        ActionView {
            label: "Format as bullet points"@,
            key: Some('5'),
            command: built_in_command(
                "Rewrite this text as a concise bulleted list."@,
                KEEP_LANGUAGE@,
            ),
        },
    ]
}

/// The built-in set.
pub open spec fn default_set() -> LoadedView {
    LoadedView {
        actions: default_actions(),
        timeouts: seq![
            DEFAULT_TIMEOUT_MS,
            DEFAULT_TIMEOUT_MS,
            DEFAULT_TIMEOUT_MS,
            DEFAULT_TIMEOUT_MS,
            DEFAULT_TIMEOUT_MS,
        ],
        warnings: seq![],
        used_defaults: true,
    }
}

fn built_in(label: &str, key: char, prompt: &str, rule: &str) -> (r: Action)
    ensures
        r@ == (ActionView {
            label: label@,
            key: Some(key),
            command: built_in_command(prompt@, rule@),
        }),
{
    let mut command = COMMAND_HEAD.to_string();
    command.append(prompt);
    command.append(rule);
    command.append(COMMAND_TAIL);
    Action { label: label.to_string(), key: Some(key), command }
}

/// The built-in set: small, and entirely local.
pub fn defaults() -> (r: Loaded)
    ensures
        r@ == default_set(),
{
    let actions: Vec<Action> = vec![
        built_in(
            "Tidy up",
            '1',
            "Fix grammar, spelling and punctuation in this dictation. Preserve the meaning.",
            KEEP_LANGUAGE,
        ),
        built_in(
            "Tidy up + remove filler",
            '2',
            "Fix grammar and punctuation in this dictation and remove filler words and false starts. Preserve the meaning.",
            KEEP_LANGUAGE,
        ),
        built_in(
            "Translate to English",
            '3',
            "Translate this text into English. If it is already in English, return it unchanged.",
            "",
        ),
        built_in(
            "Make it concise",
            '4',
            "Rewrite this text to be shorter and clearer while keeping every point.",
            KEEP_LANGUAGE,
        ),
        built_in(
            "Format as bullet points",
            '5',
            "Rewrite this text as a concise bulleted list.",
            KEEP_LANGUAGE,
        ),
    ];
    let timeouts: Vec<u64> = vec![
        DEFAULT_TIMEOUT_MS,
        DEFAULT_TIMEOUT_MS,
        DEFAULT_TIMEOUT_MS,
        DEFAULT_TIMEOUT_MS,
        DEFAULT_TIMEOUT_MS,
    ];
    let r = Loaded { actions, timeouts, warnings: Vec::new(), used_defaults: true };
    assert(r@.actions =~= default_set().actions);
    assert(r@.timeouts =~= default_set().timeouts);
    assert(r@.warnings =~= default_set().warnings);
    r
}

// ---------------------------------------------------------------------------
// Loading
// ---------------------------------------------------------------------------

/// The built-in set, with the warning that tells why it is used.
pub open spec fn fallback(warning: Seq<char>) -> LoadedView {
    LoadedView { warnings: seq![warning], ..default_set() }
}

/// The warning for a text that is no config.
pub open spec fn not_toml(brief: Seq<char>) -> Seq<char> {
    "config is not valid TOML ("@ + brief + ") — using defaults"@
}

/// What a text comes to, given the document it was parsed into and the keys at
/// the top of it.
pub open spec fn loaded(
    text: Seq<char>,
    tree: Result<Node, Seq<char>>,
    keys: Option<Seq<Seq<char>>>,
) -> LoadedView {
    let file = vstd::utf8::encode_utf8(text);
    match tree {
        Err(e) => fallback(not_toml(text::first_line_or(e, "parse error"@))),
        Ok(root) => match config_in(file, root) {
            Err(at) => fallback(not_toml(toml_doc::error_heading(file, at as int))),
            Ok(raw) => action_set(raw, known_keys(keys)),
        },
    }
}

/// The outcome of a parse, in the model.
pub open spec fn parsed<V>(r: Result<V, String>) -> Result<V, Seq<char>> {
    match r {
        Ok(v) => Ok(v),
        Err(e) => Err(e@),
    }
}

fn fall_back(warning: String) -> (r: Loaded)
    ensures
        r@ == fallback(warning@),
{
    let mut d = defaults();
    d.warnings.push(warning);
    assert(text::texts(d.warnings@) =~= seq![warning@]);
    d
}

fn warn_not_toml(brief: &str) -> (r: String)
    ensures
        r@ == not_toml(brief@),
{
    let mut w = "config is not valid TOML (".to_string();
    w.append(brief);
    w.append(") — using defaults");
    w
}

/// The keys of a document, in the model.
pub open spec fn key_texts(keys: Option<Vec<String>>) -> Option<Seq<Seq<char>>> {
    match keys {
        Some(list) => Some(text::texts(list@)),
        None => None,
    }
}

/// What `text` comes to, given the document it was parsed into and the keys at
/// the top of it.
///
/// Only the first line of a parse error is kept: the rest is a span that would
/// bury the message in a one-line warning.
pub fn load_document(
    text: &str,
    tree: &Result<Node, String>,
    keys: &Option<Vec<String>>,
) -> (r: Loaded)
    ensures
        r@ == loaded(text@, parsed(*tree), key_texts(*keys)),
{
    let root = match tree {
        Ok(root) => root,
        Err(e) => {
            let brief = text::first_line(e.as_str(), "parse error");
            return fall_back(warn_not_toml(brief.as_str()));
        },
    };
    match read_config(text, root) {
        Err(at) => fall_back(warn_not_toml(toml_doc::heading(text, at).as_str())),
        Ok(raw) => match keys {
            Some(list) => check_config(&raw, list),
            None => {
                let none: Vec<String> = Vec::new();
                assert(text::texts(none@) =~= seq![]);
                check_config(&raw, &none)
            },
        },
    }
}

/// Parse config text.
pub fn parse(text: &str) -> (r: Loaded)
    ensures
        r@ == loaded(text@, toml_doc::toml_tree(text@), toml_doc::toml_keys(text@)),
{
    load_document(text, &toml_doc::parse_tree(text), &toml_doc::parse_keys(text))
}

/// What reading the config file gave.
#[derive(Debug)]
pub enum ConfigRead {
    /// There is no file, or no place for one.
    Absent,
    /// There is a file, and reading it failed.
    Unreadable { path: String, error: String },
    /// The text of the file.
    Text(String),
}

/// What the config file comes to.
pub open spec fn loaded_file(file: ConfigRead) -> LoadedView {
    match file {
        ConfigRead::Absent => fallback("there is no config — using defaults"@),
        ConfigRead::Unreadable { path, error } => fallback(
            place::could_not_text("read"@, path@, error@) + " — using defaults"@,
        ),
        ConfigRead::Text(text) => loaded(
            text@,
            toml_doc::toml_tree(text@),
            toml_doc::toml_keys(text@),
        ),
    }
}

/// Load the action set, falling back to the built-in one at every failure, and
/// saying so.
pub fn load(file: ConfigRead) -> (r: Loaded)
    ensures
        r@ == loaded_file(file),
{
    match file {
        ConfigRead::Absent => fall_back("there is no config — using defaults".to_string()),
        ConfigRead::Unreadable { path, error } => {
            let mut w = place::could_not("read", path.as_str(), error.as_str());
            w.append(" — using defaults");
            fall_back(w)
        },
        ConfigRead::Text(text) => parse(text.as_str()),
    }
}

/// Where the config lives, given which of `$VOXTYPE_REVIEW_CONFIG`,
/// `$XDG_CONFIG_HOME` and `$HOME` are set. The first one wins, so that one-off
/// runs never touch the operator's real file.
pub fn config_path(explicit: bool, config_home: bool, home: bool) -> (r: Option<Place>)
    ensures
        match r {
            Some(p) => {
                &&& explicit || config_home || home
                &&& explicit ==> p.base == Base::Explicit && p.below@ == ""@
                &&& !explicit && config_home ==> p.base == Base::ConfigHome && p.below@
                    == "voxtype-review/config.toml"@
                &&& !explicit && !config_home ==> p.base == Base::Home && p.below@
                    == ".config/voxtype-review/config.toml"@
            },
            None => !explicit && !config_home && !home,
        },
{
    if explicit {
        return Some(Place { base: Base::Explicit, below: "" });
    }
    if config_home {
        return Some(Place { base: Base::ConfigHome, below: "voxtype-review/config.toml" });
    }
    if home {
        return Some(Place { base: Base::Home, below: ".config/voxtype-review/config.toml" });
    }
    None
}

// ---------------------------------------------------------------------------
// The starter file
// ---------------------------------------------------------------------------

/// What the starter file says before its entries.
pub const STARTER_HEAD: &'static str = r##"# voxtype-review — action configuration
#
# Each [[actions]] entry is one thing you can do to a transcript before it is
# inserted. The transcript arrives on the command's stdin; whatever the command
# prints on stdout is what gets typed.
#
#   label       shown in the popup
#   key         hotkey digit, "1".."9". Optional — omit to make it
#               arrow-selectable only. Must be unique.
#   command     any shell command. Pipes, quotes and scripts are all fine.
#   timeout_ms  optional per-action override of the global timeout below
#
# If an entry is malformed it is skipped with a warning on stderr and the rest
# still load. If this whole file is unparseable the built-in defaults are used.
# A transcript is never lost because of a config error.
#
# Check what actually loaded:   voxtype-review --list-actions

# Global fallback timeout for any action that does not set its own.
timeout_ms = 120000

"##;

/// What the starter file says behind its entries.
pub const STARTER_TAIL: &'static str = r##"
# Actions do not have to involve a language model. Anything that reads stdin
# and writes stdout works:
#
# [[actions]]
# label = "UPPERCASE"
# key = "6"
# command = "tr a-z A-Z"
#
# [[actions]]
# label = "Strip trailing whitespace"
# key = "7"
# command = "sed 's/[[:space:]]*$//'"
"##;

/// A character of a TOML basic string in the starter file.
pub open spec fn toml_escaped_char(c: char) -> Seq<char> {
    if c == '\\' {
        seq!['\\', '\\']
    } else if c == '"' {
        seq!['\\', '"']
    } else {
        seq![c]
    }
}

/// A text with its backslashes and quotes escaped.
pub open spec fn toml_escaped(s: Seq<char>) -> Seq<char>
    decreases s.len(),
{
    if s.len() == 0 {
        seq![]
    } else {
        toml_escaped_char(s[0]) + toml_escaped(s.drop_first())
    }
}

/// The entry of the starter file for an action.
pub open spec fn starter_entry(a: ActionView) -> Seq<char> {
    let key = match a.key {
        Some(c) => "key = \""@ + seq![c] + "\"\n"@,
        None => ""@,
    };
    "[[actions]]\nlabel = \""@ + toml_escaped(a.label) + "\"\n"@ + key + "command = \""@
        + toml_escaped(a.command) + "\"\n"@
}

/// The commented starter file. Its entries are the built-in actions.
pub open spec fn starter_text() -> Seq<char> {
    STARTER_HEAD@ + text::joined(
        default_actions().map_values(|a: ActionView| starter_entry(a)),
        "\n"@,
    ) + STARTER_TAIL@
}

/// Escape `s` for a TOML basic string.
pub fn toml_escape(s: &str) -> (r: String)
    ensures
        r@ == toml_escaped(s@),
{
    let v = text::chars_of(s);
    let mut out = String::new();
    let mut i: usize = 0;
    assert(v@.skip(0) =~= v@);
    assert(toml_escaped(v@) =~= out@ + toml_escaped(v@.skip(0)));
    while i < v.len()
        invariant
            i <= v@.len(),
            v@ == s@,
            toml_escaped(v@) == out@ + toml_escaped(v@.skip(i as int)),
        decreases v@.len() - i,
    {
        let c: char = v[i];
        let ghost before = out@;
        let ghost here = v@.skip(i as int);
        if c == '\\' || c == '"' {
            out.push('\\');
        }
        out.push(c);
        proof {
            assert(here[0] == c);
            assert(here.drop_first() =~= v@.skip(i + 1));
            assert(out@ =~= before + toml_escaped_char(c));
            assert(before + (toml_escaped_char(c) + toml_escaped(v@.skip(i + 1))) =~= out@
                + toml_escaped(v@.skip(i + 1)));
        }
        i = i + 1;
    }
    assert(v@.skip(v@.len() as int).len() == 0);
    assert(toml_escaped(v@) =~= out@);
    out
}

fn write_entry(a: &Action) -> (r: String)
    ensures
        r@ == starter_entry(a@),
{
    let mut key = String::new();
    match a.key {
        Some(c) => {
            key.append("key = \"");
            let ghost before = key@;
            key.push(c);
            assert(key@ =~= before + seq![c]);
            key.append("\"\n");
            assert(key@ =~= "key = \""@ + seq![c] + "\"\n"@);
        },
        None => {
            proof {
                reveal_strlit("");
            }
            assert(key@ =~= ""@);
        },
    }
    let mut r = "[[actions]]\nlabel = \"".to_string();
    r.append(toml_escape(a.label.as_str()).as_str());
    r.append("\"\n");
    r.append(key.as_str());
    r.append("command = \"");
    r.append(toml_escape(a.command.as_str()).as_str());
    r.append("\"\n");
    r
}

/// The commented starter file. Its entries are generated from the built-in
/// actions, so that the two cannot drift apart.
pub fn starter_file() -> (r: String)
    ensures
        r@ == starter_text(),
{
    let d = defaults();
    let ghost views = default_actions();
    let ghost want = views.map_values(|a: ActionView| starter_entry(a));
    let mut entries: Vec<String> = Vec::new();
    let mut i: usize = 0;
    assert(text::texts(entries@) =~= want.take(0));
    while i < d.actions.len()
        invariant
            i <= d.actions@.len(),
            views == crate::action::action_views(d.actions@),
            want == views.map_values(|a: ActionView| starter_entry(a)),
            text::texts(entries@) == want.take(i as int),
        decreases d.actions@.len() - i,
    {
        let ghost before = text::texts(entries@);
        let e = write_entry(&d.actions[i]);
        entries.push(e);
        assert(views[i as int] == d.actions@[i as int]@);
        assert(text::texts(entries@) =~= before.push(want[i as int]));
        assert(want.take(i + 1) =~= want.take(i as int).push(want[i as int]));
        i = i + 1;
    }
    assert(want.take(i as int) =~= want);
    let mut r = STARTER_HEAD.to_string();
    r.append(text::join(&entries, "\n").as_str());
    r.append(STARTER_TAIL);
    r
}

/// What to write to `path` as a starter file, or why not: the operator's action
/// list is theirs, so a file that exists is kept unless `force` is given.
pub fn write_default_config(path: &str, present: bool, force: bool) -> (r: Result<String, String>)
    ensures
        match r {
            Ok(t) => (!present || force) && t@ == starter_text(),
            Err(e) => present && !force && e@ == path@
                + " already exists — pass --force to overwrite it"@,
        },
{
    if present && !force {
        let mut e = path.to_string();
        e.append(" already exists — pass --force to overwrite it");
        return Err(e);
    }
    Ok(starter_file())
}

// ---------------------------------------------------------------------------
// What an action set can be relied on for
// ---------------------------------------------------------------------------

/// An action set that the popup can work with: a time for each action, hotkeys
/// that are distinct digits from 1 to 9, and no command that does nothing.
pub open spec fn well_formed(set: LoadedView) -> bool {
    &&& set.timeouts.len() == set.actions.len()
    &&& forall|i: int|
        0 <= i < set.actions.len() ==> (#[trigger] set.actions[i]).key is Some ==> is_hotkey(
            set.actions[i].key->0,
        )
    &&& forall|i: int, j: int|
        0 <= i < j < set.actions.len() && (#[trigger] set.actions[i]).key is Some
            ==> set.actions[i].key != (#[trigger] set.actions[j]).key
    &&& forall|i: int|
        0 <= i < set.actions.len() ==> !text::blank((#[trigger] set.actions[i]).command)
}

proof fn lemma_checked_is_well_formed(
    entries: Seq<Result<RawActionView, Seq<char>>>,
    n: int,
    global: u64,
)
    ensures
        well_formed(checked(entries, n, global)),
    decreases n,
{
    if n > 0 {
        let before = checked(entries, n - 1, global);
        lemma_checked_is_well_formed(entries, n - 1, global);
        match verdict(entries[n - 1], n, before.actions) {
            Verdict::Accept(a) => {
                let set = checked(entries, n, global);
                assert(set.actions == before.actions.push(a));
                assert forall|i: int, j: int|
                    0 <= i < j < set.actions.len() && (#[trigger] set.actions[i]).key
                        is Some implies set.actions[i].key != (#[trigger] set.actions[j]).key by {
                    assert(set.actions[i] == before.actions[i]);
                    if j < before.actions.len() {
                        assert(set.actions[j] == before.actions[j]);
                    }
                }
            },
            Verdict::Skip(w) => {},
        }
    }
}

proof fn lemma_defaults_are_well_formed()
    ensures
        well_formed(default_set()),
{
    let set = default_set();
    assert forall|i: int| 0 <= i < set.actions.len() implies !text::blank(
        (#[trigger] set.actions[i]).command,
    ) by {
        let command = set.actions[i].command;
        reveal_strlit("jq -Rs --arg m hermes3:8b --arg p '");
        assert(COMMAND_HEAD@[0] == 'j');
        assert(command[0] == 'j');
        text::lemma_blank(command);
    }
}

/// Whatever the file says, and whether or not it could be parsed, the action set
/// is one that the popup can work with.
pub proof fn law_a_loaded_set_is_well_formed(
    text: Seq<char>,
    tree: Result<Node, Seq<char>>,
    keys: Option<Seq<Seq<char>>>,
)
    ensures
        well_formed(loaded(text, tree, keys)),
        well_formed(default_set()),
{
    lemma_defaults_are_well_formed();
    if let Ok(root) = tree {
        if let Ok(raw) = config_in(vstd::utf8::encode_utf8(text), root) {
            let global = match raw.timeout_ms {
                Some(ms) => ms,
                None => DEFAULT_TIMEOUT_MS,
            };
            lemma_checked_is_well_formed(raw.actions, raw.actions.len() as int, global);
        }
    }
}

/// A text that is no config costs the operator nothing but a warning: the
/// built-in actions are offered.
pub proof fn law_a_text_that_is_no_config_offers_the_built_in_actions(
    text: Seq<char>,
    tree: Result<Node, Seq<char>>,
    keys: Option<Seq<Seq<char>>>,
)
    requires
        tree is Err || config_in(vstd::utf8::encode_utf8(text), tree->Ok_0) is Err,
    ensures
        loaded(text, tree, keys).used_defaults,
        loaded(text, tree, keys).actions == default_actions(),
        loaded(text, tree, keys).timeouts == default_set().timeouts,
        loaded(text, tree, keys).warnings.len() == 1,
{
}

/// Every entry becomes an action or is named in a warning; none is dropped
/// silently.
pub proof fn law_every_entry_is_loaded_or_reported(
    entries: Seq<Result<RawActionView, Seq<char>>>,
    n: int,
    global: u64,
)
    requires
        0 <= n <= entries.len(),
    ensures
        checked(entries, n, global).actions.len() + checked(entries, n, global).warnings.len() == n,
    decreases n,
{
    if n > 0 {
        law_every_entry_is_loaded_or_reported(entries, n - 1, global);
    }
}

proof fn lemma_checked_keeps_actions(
    entries: Seq<Result<RawActionView, Seq<char>>>,
    k: int,
    n: int,
    global: u64,
)
    requires
        0 <= k <= n,
    ensures
        checked(entries, k, global).actions.is_prefix_of(checked(entries, n, global).actions),
    decreases n - k,
{
    if k < n {
        lemma_checked_keeps_actions(entries, k, n - 1, global);
    }
}

/// A bad entry never costs a good one. An entry with a command and no key is an
/// action, and an entry with a command and a valid key is one unless an action
/// before it has that key, whatever stands around it.
pub proof fn law_a_good_entry_is_never_lost(raw: RawConfigView, keys: Seq<Seq<char>>, i: int)
    requires
        0 <= i < raw.actions.len(),
        raw.actions[i] is Ok,
        raw.actions[i]->Ok_0.command matches Some(c) && !text::blank(c),
        raw.actions[i]->Ok_0.key matches Some(k) ==> k.len() == 0 || k.len() == 1 && is_hotkey(
            k[0],
        ),
    ensures
        ({
            let e = raw.actions[i]->Ok_0;
            let a = ActionView {
                label: entry_label(e, i + 1),
                key: match e.key {
                    Some(k) => if k.len() == 0 {
                        None
                    } else {
                        Some(k[0])
                    },
                    None => None,
                },
                command: e.command->0,
            };
            let actions = action_set(raw, keys).actions;
            actions.contains(a) || a.key is Some && claimed(actions, a.key->0)
        }),
{
    let global = match raw.timeout_ms {
        Some(ms) => ms,
        None => DEFAULT_TIMEOUT_MS,
    };
    let e = raw.actions[i]->Ok_0;
    let n = raw.actions.len() as int;
    let before = checked(raw.actions, i, global).actions;
    let after = checked(raw.actions, i + 1, global).actions;
    let actions = checked(raw.actions, n, global).actions;
    lemma_checked_keeps_actions(raw.actions, i, n, global);
    lemma_checked_keeps_actions(raw.actions, i + 1, n, global);
    match fitting_verdict(e, i + 1, before) {
        Verdict::Accept(a) => {
            assert(after == before.push(a));
            assert(after[before.len() as int] == a);
            assert(actions[before.len() as int] == a);
        },
        Verdict::Skip(w) => {
            let c = e.key->0[0];
            assert(claimed(before, c));
            let k = choose|k: int| 0 <= k < before.len() && (#[trigger] before[k]).key == Some(c);
            assert(actions[k] == before[k]);
        },
    }
}

/// An empty action set is legal, but never silent.
pub proof fn law_an_empty_set_says_so(raw: RawConfigView, keys: Seq<Seq<char>>)
    requires
        action_set(raw, keys).actions.len() == 0,
    ensures
        action_set(raw, keys).warnings.len() > 0,
        action_set(raw, keys).warnings.last() == no_actions_warning(),
{
}

proof fn lemma_unknown_keys_reported(keys: Seq<Seq<char>>, i: int)
    requires
        0 <= i < keys.len(),
        keys[i] != "actions"@,
        keys[i] != "timeout_ms"@,
    ensures
        exists|j: int|
            0 <= j < unknown_keys(keys).len() && text::holds(
                #[trigger] unknown_keys(keys)[j],
                "unknown key \""@ + keys[i] + "\""@,
            ),
    decreases keys.len(),
{
    let before = unknown_keys(keys.drop_last());
    let all = unknown_keys(keys);
    let pat = "unknown key \""@ + keys[i] + "\""@;
    if i == keys.len() - 1 {
        let hint = if keys[i] == "action"@ {
            " (did you mean [[actions]]?)"@
        } else {
            ""@
        };
        let w = "config has unknown key \""@ + keys[i] + "\""@ + hint + " — ignored"@;
        reveal_strlit("config has unknown key \"");
        reveal_strlit("unknown key \"");
        assert(all == before.push(w));
        assert(w.subrange(11, 11 + pat.len() as int) =~= pat);
        assert(text::occurs_at(w, pat, 11));
        assert(text::holds(w, pat));
        assert(all[before.len() as int] == w);
    } else {
        assert(keys.drop_last()[i] == keys[i]);
        lemma_unknown_keys_reported(keys.drop_last(), i);
        let j = choose|j: int|
            0 <= j < before.len() && text::holds(#[trigger] before[j], pat);
        assert(all[j] == before[j]);
    }
}

/// A key that means nothing is named in a warning rather than silently ignored.
pub proof fn law_an_unknown_key_is_named(raw: RawConfigView, keys: Seq<Seq<char>>, i: int)
    requires
        0 <= i < keys.len(),
        keys[i] != "actions"@,
        keys[i] != "timeout_ms"@,
    ensures
        exists|j: int|
            0 <= j < action_set(raw, keys).warnings.len() && text::holds(
                #[trigger] action_set(raw, keys).warnings[j],
                "unknown key \""@ + keys[i] + "\""@,
            ),
{
    let pat = "unknown key \""@ + keys[i] + "\""@;
    lemma_unknown_keys_reported(keys, i);
    let unknown = unknown_keys(keys);
    let j = choose|j: int| 0 <= j < unknown.len() && text::holds(#[trigger] unknown[j], pat);
    assert(action_set(raw, keys).warnings[j] == unknown[j]);
}

/// A label or a command of the starter file reads back as it was, unless it
/// holds a bare control character.
pub proof fn law_an_escaped_value_reads_back(s: Seq<char>)
    requires
        forall|i: int| 0 <= i < s.len() ==> voxtype_config::may_stand(#[trigger] s[i]),
    ensures
        voxtype_config::basic_string(toml_escaped(s) + seq!['"']) == Some(s),
    decreases s.len(),
{
    let whole = toml_escaped(s) + seq!['"'];
    if s.len() == 0 {
        assert(whole =~= seq!['"']);
        assert(s =~= seq![]);
    } else {
        let c = s[0];
        let rest = s.drop_first();
        let after = toml_escaped(rest) + seq!['"'];
        assert forall|i: int| 0 <= i < rest.len() implies voxtype_config::may_stand(
            #[trigger] rest[i],
        ) by {
            assert(rest[i] == s[i + 1]);
        }
        law_an_escaped_value_reads_back(rest);
        assert(whole =~= toml_escaped_char(c) + after);
        assert(seq![c] + rest =~= s);
        if c == '\\' || c == '"' {
            assert(whole[0] == '\\');
            assert(whole[1] == c);
            assert(whole.skip(2) =~= after);
        } else {
            assert(whole[0] == c);
            assert(whole.drop_first() =~= after);
        }
    }
}

/// Falling back to the built-in set always comes with a warning, and a file that
/// is not there or cannot be read always falls back.
pub proof fn law_a_fallback_says_so(file: ConfigRead)
    ensures
        loaded_file(file).used_defaults ==> loaded_file(file).actions == default_actions()
            && loaded_file(file).warnings.len() == 1,
        file !is Text ==> loaded_file(file).used_defaults,
{
    if let ConfigRead::Text(text) = file {
        if let Ok(root) = toml_doc::toml_tree(text@) {
            if let Ok(raw) = config_in(vstd::utf8::encode_utf8(text@), root) {
                law_checking_uses_no_defaults(
                    raw.actions,
                    raw.actions.len() as int,
                    match raw.timeout_ms {
                        Some(ms) => ms,
                        None => DEFAULT_TIMEOUT_MS,
                    },
                );
            }
        }
    }
}

proof fn lemma_keys_fit(entries: Seq<(String, Node)>, i: int, key: Seq<char>)
    requires
        0 <= i <= entries.len(),
        first_key_fault(entries, i) is None,
    ensures
        toml_doc::entry(entries.skip(i), key) matches Some(n) ==> key_fault(key, n) is None,
    decreases entries.len() - i,
{
    let rest = entries.skip(i);
    if i < entries.len() && rest[0].0@ != key {
        assert(rest.drop_first() =~= entries.skip(i + 1));
        lemma_keys_fit(entries, i + 1, key);
    }
}

/// A malformed entry costs that entry alone: where the keys at the top of a
/// document fit, the built-in set is not offered, and each element of the list
/// is an entry or a fault of its own, whatever the others are.
pub proof fn law_a_malformed_entry_costs_only_itself(
    text: Seq<char>,
    root: Node,
    keys: Option<Seq<Seq<char>>>,
    list: Node,
)
    requires
        root.value matches NodeValue::Table(entries) && first_key_fault(entries@, 0) is None
            && toml_doc::entry(entries@, "actions"@) == Some(list),
    ensures
        ({
            let file = vstd::utf8::encode_utf8(text);
            let items = list.value->Array_0@;
            &&& list.value is Array
            &&& !loaded(text, Ok(root), keys).used_defaults
            &&& config_in(file, root) matches Ok(raw) && raw.actions.len() == items.len()
                && forall|i: int|
                0 <= i < items.len() ==> #[trigger] raw.actions[i] == placed_entry(file, items[i])
        }),
{
    let entries = root.value->Table_0@;
    lemma_keys_fit(entries, 0, "actions"@);
    lemma_keys_fit(entries, 0, "timeout_ms"@);
    reveal_strlit("actions");
    reveal_strlit("timeout_ms");
    assert("actions"@.len() != "timeout_ms"@.len());
    assert(entries.skip(0) =~= entries);
    let raw = config_in(vstd::utf8::encode_utf8(text), root)->Ok_0;
    law_checking_uses_no_defaults(
        raw.actions,
        raw.actions.len() as int,
        match raw.timeout_ms {
            Some(ms) => ms,
            None => DEFAULT_TIMEOUT_MS,
        },
    );
}

/// No `u` stands behind an `r`.
spec fn no_ru(s: Seq<char>) -> bool {
    forall|i: int| 0 < i < s.len() ==> !(#[trigger] s[i] == 'u' && s[i - 1] == 'r')
}

/// No `u` stands behind an `r`, nor at the start. Texts of this kind can be put
/// together.
spec fn quiet(s: Seq<char>) -> bool {
    no_ru(s) && (s.len() > 0 ==> s[0] != 'u')
}

/// Every character may stand in a TOML basic string as it is, or is escaped.
spec fn standing(s: Seq<char>) -> bool {
    forall|i: int| 0 <= i < s.len() ==> voxtype_config::may_stand(#[trigger] s[i])
}

proof fn lemma_together(x: Seq<char>, y: Seq<char>)
    ensures
        quiet(x) && quiet(y) ==> quiet(x + y),
        standing(x) && standing(y) ==> standing(x + y),
{
    let s = x + y;
    if quiet(x) && quiet(y) {
        assert forall|i: int| 0 < i < s.len() implies !(#[trigger] s[i] == 'u' && s[i - 1]
            == 'r') by {
            if i < x.len() {
                assert(s[i] == x[i] && s[i - 1] == x[i - 1]);
            } else if i == x.len() {
                assert(s[i] == y[0]);
            } else {
                assert(s[i] == y[i - x.len()] && s[i - 1] == y[i - x.len() - 1]);
            }
        }
        assert(s.len() > 0 ==> s[0] == if x.len() > 0 { x[0] } else { y[0] });
    }
    if standing(x) && standing(y) {
        assert forall|i: int| 0 <= i < s.len() implies voxtype_config::may_stand(
            #[trigger] s[i],
        ) by {
            if i < x.len() {
                assert(s[i] == x[i]);
            } else {
                assert(s[i] == y[i - x.len()]);
            }
        }
    }
}

proof fn lemma_joined_quiet(parts: Seq<Seq<char>>, sep: Seq<char>)
    requires
        quiet(sep),
        forall|i: int| 0 <= i < parts.len() ==> quiet(#[trigger] parts[i]),
    ensures
        quiet(text::joined(parts, sep)),
    decreases parts.len(),
{
    if parts.len() == 1 {
        assert(quiet(parts[0]));
    } else if parts.len() > 1 {
        let front = parts.drop_last();
        assert forall|i: int| 0 <= i < front.len() implies quiet(#[trigger] front[i]) by {
            assert(front[i] == parts[i]);
        }
        lemma_joined_quiet(front, sep);
        assert(quiet(parts[parts.len() - 1]));
        lemma_together(text::joined(front, sep), sep);
        lemma_together(text::joined(front, sep) + sep, parts.last());
    }
}

proof fn lemma_escaped_no_ru(s: Seq<char>)
    requires
        no_ru(s),
    ensures
        no_ru(toml_escaped(s)),
        toml_escaped(s).len() > 0 ==> s.len() > 0 && (toml_escaped(s)[0] == s[0]
            || toml_escaped(s)[0] == '\\'),
    decreases s.len(),
{
    if s.len() > 0 {
        let rest = s.drop_first();
        let x = toml_escaped_char(s[0]);
        let y = toml_escaped(rest);
        let whole = toml_escaped(s);
        assert forall|i: int| 0 < i < rest.len() implies !(#[trigger] rest[i] == 'u' && rest[i - 1]
            == 'r') by {
            assert(s[i + 1] == rest[i] && s[i] == rest[i - 1]);
        }
        lemma_escaped_no_ru(rest);
        assert forall|i: int| 0 < i < whole.len() implies !(#[trigger] whole[i] == 'u' && whole[i
            - 1] == 'r') by {
            if i < x.len() {
                assert(whole[i] == x[i] && whole[i - 1] == x[i - 1]);
            } else if i == x.len() {
                assert(whole[i] == y[0] && whole[i - 1] == x[x.len() - 1]);
                assert(rest[0] == s[1]);
            } else {
                assert(whole[i] == y[i - x.len()] && whole[i - 1] == y[i - x.len() - 1]);
            }
        }
    }
}

proof fn lemma_quiet_entry(a: ActionView)
    requires
        quiet(a.label),
        quiet(a.command),
        a.key matches Some(c) ==> c != 'u',
    ensures
        quiet(starter_entry(a)),
{
    reveal_strlit("[[actions]]\nlabel = \"");
    reveal_strlit("\"\n");
    reveal_strlit("key = \"");
    reveal_strlit("");
    reveal_strlit("command = \"");
    lemma_escaped_no_ru(a.label);
    lemma_escaped_no_ru(a.command);
    let label = "[[actions]]\nlabel = \""@;
    let end = "\"\n"@;
    let key = match a.key {
        Some(c) => "key = \""@ + seq![c] + "\"\n"@,
        None => ""@,
    };
    if let Some(c) = a.key {
        lemma_together("key = \""@, seq![c]);
        lemma_together("key = \""@ + seq![c], end);
    }
    let command = "command = \""@;
    lemma_together(label, toml_escaped(a.label));
    lemma_together(label + toml_escaped(a.label), end);
    lemma_together(label + toml_escaped(a.label) + end, key);
    lemma_together(label + toml_escaped(a.label) + end + key, command);
    lemma_together(
        label + toml_escaped(a.label) + end + key + command,
        toml_escaped(a.command),
    );
    lemma_together(
        label + toml_escaped(a.label) + end + key + command + toml_escaped(a.command),
        end,
    );
}

proof fn lemma_built_in_command(prompt: Seq<char>, rule: Seq<char>)
    requires
        quiet(prompt),
        quiet(rule),
        standing(prompt),
        standing(rule),
    ensures
        quiet(built_in_command(prompt, rule)),
        standing(built_in_command(prompt, rule)),
{
    reveal_strlit("jq -Rs --arg m hermes3:8b --arg p '");
    reveal_strlit(" Output only the resulting text, with no preamble, no explanation and no quotation marks.' '{model:$m,prompt:($p+\"\\n\\n\"+.),stream:false}' | curl -sf --max-time 110 http://localhost:11434/api/generate -d @- | jq -r '.response'");
    assert(quiet(COMMAND_HEAD@) && standing(COMMAND_HEAD@));
    assert(quiet(COMMAND_TAIL@) && standing(COMMAND_TAIL@));
    lemma_together(COMMAND_HEAD@, prompt);
    lemma_together(COMMAND_HEAD@ + prompt, rule);
    lemma_together(COMMAND_HEAD@ + prompt + rule, COMMAND_TAIL@);
}

proof fn lemma_prompts()
    ensures
        forall|i: int|
            0 <= i < default_actions().len() ==> quiet(#[trigger] default_actions()[i].command)
                && standing(default_actions()[i].command),
{
    reveal_strlit(" Reply in the SAME language as the input text. Never translate it.");
    reveal_strlit("");
    reveal_strlit(
        "Fix grammar, spelling and punctuation in this dictation. Preserve the meaning.",
    );
    reveal_strlit(
        "Fix grammar and punctuation in this dictation and remove filler words and false starts. Preserve the meaning.",
    );
    reveal_strlit(
        "Translate this text into English. If it is already in English, return it unchanged.",
    );
    reveal_strlit(
        "Rewrite this text to be shorter and clearer while keeping every point.",
    );
    reveal_strlit(
        "Rewrite this text as a concise bulleted list.",
    );
    assert(quiet(KEEP_LANGUAGE@) && standing(KEEP_LANGUAGE@));
    lemma_built_in_command(
        "Fix grammar, spelling and punctuation in this dictation. Preserve the meaning."@,
        KEEP_LANGUAGE@,
    );
    lemma_built_in_command(
        "Fix grammar and punctuation in this dictation and remove filler words and false starts. Preserve the meaning."@,
        KEEP_LANGUAGE@,
    );
    lemma_built_in_command(
        "Translate this text into English. If it is already in English, return it unchanged."@,
        ""@,
    );
    lemma_built_in_command(
        "Rewrite this text to be shorter and clearer while keeping every point."@,
        KEEP_LANGUAGE@,
    );
    lemma_built_in_command(
        "Rewrite this text as a concise bulleted list."@,
        KEEP_LANGUAGE@,
    );
}

proof fn lemma_labels()
    ensures
        forall|i: int|
            0 <= i < default_actions().len() ==> quiet(#[trigger] default_actions()[i].label)
                && standing(default_actions()[i].label),
{
    reveal_strlit("Tidy up");
    reveal_strlit("Tidy up + remove filler");
    reveal_strlit("Translate to English");
    reveal_strlit("Make it concise");
    reveal_strlit("Format as bullet points");
}

proof fn lemma_starter_head()
    ensures
        quiet(STARTER_HEAD@),
{
    reveal_strlit(r##"# voxtype-review — action configuration
#
# Each [[actions]] entry is one thing you can do to a transcript before it is
# inserted. The transcript arrives on the command's stdin; whatever the command
# prints on stdout is what gets typed.
#
#   label       shown in the popup
#   key         hotkey digit, "1".."9". Optional — omit to make it
#               arrow-selectable only. Must be unique.
#   command     any shell command. Pipes, quotes and scripts are all fine.
#   timeout_ms  optional per-action override of the global timeout below
#
# If an entry is malformed it is skipped with a warning on stderr and the rest
# still load. If this whole file is unparseable the built-in defaults are used.
# A transcript is never lost because of a config error.
#
# Check what actually loaded:   voxtype-review --list-actions

# Global fallback timeout for any action that does not set its own.
timeout_ms = 120000

"##);
}

proof fn lemma_starter_tail()
    ensures
        quiet(STARTER_TAIL@),
{
    reveal_strlit(r##"
# Actions do not have to involve a language model. Anything that reads stdin
# and writes stdout works:
#
# [[actions]]
# label = "UPPERCASE"
# key = "6"
# command = "tr a-z A-Z"
#
# [[actions]]
# label = "Strip trailing whitespace"
# key = "7"
# command = "sed 's/[[:space:]]*$//'"
"##);
}

proof fn lemma_quiet_holds_no_ollama_run(s: Seq<char>)
    requires
        quiet(s),
    ensures
        !text::holds(s, "ollama run"@),
{
    reveal_strlit("ollama run");
    let pat = "ollama run"@;
    assert forall|i: int| !text::occurs_at(s, pat, i) by {
        if text::occurs_at(s, pat, i) {
            let here = s.subrange(i, i + pat.len());
            assert(here[7] == 'r' && here[8] == 'u');
            assert(s[i + 8] == 'u' && s[i + 7] == 'r');
        }
    }
}

/// Nothing that ships runs `ollama run`, which draws a spinner and redraws words
/// on stdout: neither a built-in command nor any line of the starter file.
pub proof fn law_nothing_shipped_draws_a_spinner(i: int)
    ensures
        !text::holds(starter_text(), "ollama run"@),
        0 <= i < default_actions().len() ==> !text::holds(
            default_actions()[i].command,
            "ollama run"@,
        ),
{
    reveal_strlit("\n");
    lemma_prompts();
    lemma_labels();
    lemma_starter_head();
    lemma_starter_tail();
    let actions = default_actions();
    let entries = actions.map_values(|a: ActionView| starter_entry(a));
    assert forall|k: int| 0 <= k < entries.len() implies quiet(#[trigger] entries[k]) by {
        assert(quiet(actions[k].label));
        assert(quiet(actions[k].command));
        lemma_quiet_entry(actions[k]);
    }
    let body = text::joined(entries, "\n"@);
    lemma_joined_quiet(entries, "\n"@);
    lemma_together(STARTER_HEAD@, body);
    lemma_together(STARTER_HEAD@ + body, STARTER_TAIL@);
    lemma_quiet_holds_no_ollama_run(starter_text());
    if 0 <= i < actions.len() {
        assert(quiet(actions[i].command));
        lemma_quiet_holds_no_ollama_run(actions[i].command);
    }
}

proof fn lemma_joined_holds(parts: Seq<Seq<char>>, sep: Seq<char>, i: int) -> (at: int)
    requires
        0 <= i < parts.len(),
    ensures
        text::occurs_at(text::joined(parts, sep), parts[i], at),
    decreases parts.len(),
{
    let whole = text::joined(parts, sep);
    if parts.len() == 1 {
        assert(whole.subrange(0, whole.len() as int) =~= whole);
        0
    } else {
        let front = text::joined(parts.drop_last(), sep);
        if i == parts.len() - 1 {
            let at = (front + sep).len() as int;
            assert(whole.subrange(at, at + parts[i].len()) =~= parts[i]);
            at
        } else {
            let at = lemma_joined_holds(parts.drop_last(), sep, i);
            assert(parts.drop_last()[i] == parts[i]);
            assert(whole.subrange(at, at + parts[i].len()) =~= front.subrange(
                at,
                at + parts[i].len(),
            ));
            at
        }
    }
}

proof fn lemma_entry_stands(head: Seq<char>, actions: Seq<ActionView>, tail: Seq<char>, i: int)
    requires
        0 <= i < actions.len(),
    ensures
        text::holds(
            head + text::joined(
                actions.map_values(|a: ActionView| starter_entry(a)),
                "\n"@,
            ) + tail,
            starter_entry(actions[i]),
        ),
{
    let entries = actions.map_values(|a: ActionView| starter_entry(a));
    let body = text::joined(entries, "\n"@);
    let whole = head + body + tail;
    let entry = entries[i];
    let at = lemma_joined_holds(entries, "\n"@, i);
    let n = head.len() as int;
    assert(whole.subrange(n + at, n + at + entry.len()) =~= body.subrange(at, at + entry.len()));
    assert(text::occurs_at(whole, entry, n + at));
}

/// The starter file holds the entry of each built-in action, and the label and
/// the command that the entry quotes read back as those of the action.
pub proof fn law_the_starter_file_offers_the_built_in_actions(i: int)
    requires
        0 <= i < default_actions().len(),
    ensures
        text::holds(starter_text(), starter_entry(default_actions()[i])),
        voxtype_config::basic_string(toml_escaped(default_actions()[i].label) + seq!['"']) == Some(
            default_actions()[i].label,
        ),
        voxtype_config::basic_string(toml_escaped(default_actions()[i].command) + seq!['"'])
            == Some(default_actions()[i].command),
{
    lemma_prompts();
    lemma_labels();
    let actions = default_actions();
    assert(standing(actions[i].label) && standing(actions[i].command));
    law_an_escaped_value_reads_back(actions[i].label);
    law_an_escaped_value_reads_back(actions[i].command);
    lemma_entry_stands(STARTER_HEAD@, actions, STARTER_TAIL@, i);
}

/// A field of an entry holds this text.
pub open spec fn field_holds(fields: Seq<(String, Node)>, name: Seq<char>, t: Seq<char>) -> bool {
    toml_doc::entry(fields, name) matches Some(n) && (n.value matches NodeValue::Text(s) && s@ == t)
}

/// An element of the list is a table that holds the label, the key and the
/// command of an action, sets no time of its own, and holds nothing that is at
/// fault.
pub open spec fn is_entry_of(node: Node, a: ActionView) -> bool {
    node.value matches NodeValue::Table(fields) && {
        &&& field_holds(fields@, "label"@, a.label)
        &&& a.key matches Some(c) && field_holds(fields@, "key"@, seq![c])
        &&& field_holds(fields@, "command"@, a.command)
        &&& toml_doc::entry(fields@, "timeout_ms"@) is None
        &&& first_field_fault(fields@, 0) is None
    }
}

proof fn lemma_entry_of(file: Seq<u8>, node: Node, a: ActionView)
    requires
        is_entry_of(node, a),
    ensures
        placed_entry(file, node) == Ok::<RawActionView, Seq<char>>(
            RawActionView {
                label: Some(a.label),
                key: Some(seq![a.key->Some_0]),
                command: Some(a.command),
                timeout_ms: None,
            },
        ),
{
}

/// The built-in keys are the digits from one on, and every built-in command says
/// something.
proof fn lemma_built_in_entries(i: int)
    requires
        0 <= i < default_actions().len(),
    ensures
        default_actions()[i].key == Some(text::digit_char(i + 1)),
        is_hotkey(text::digit_char(i + 1)),
        !text::blank(default_actions()[i].command),
        !claimed(default_actions().take(i), text::digit_char(i + 1)),
{
    reveal_strlit("jq -Rs --arg m hermes3:8b --arg p '");
    let actions = default_actions();
    let command = actions[i].command;
    assert(command[0] == COMMAND_HEAD@[0]);
    assert(COMMAND_HEAD@[0] == 'j');
    text::lemma_blank(command);
    if claimed(actions.take(i), text::digit_char(i + 1)) {
        let j = choose|j: int|
            0 <= j < actions.take(i).len() && (#[trigger] actions.take(i)[j]).key == Some(
                text::digit_char(i + 1),
            );
        assert(actions.take(i)[j] == actions[j]);
    }
}

proof fn lemma_entries_check(
    entries: Seq<Result<RawActionView, Seq<char>>>,
    actions: Seq<ActionView>,
    n: int,
    global: u64,
)
    requires
        0 <= n <= actions.len() == entries.len(),
        forall|i: int|
            0 <= i < actions.len() ==> (#[trigger] actions[i]).key == Some(
                text::digit_char(i + 1),
            ) && is_hotkey(text::digit_char(i + 1)) && !text::blank(actions[i].command)
                && !claimed(actions.take(i), text::digit_char(i + 1)),
        forall|i: int|
            0 <= i < entries.len() ==> #[trigger] entries[i] == Ok::<RawActionView, Seq<char>>(
                RawActionView {
                    label: Some(actions[i].label),
                    key: Some(seq![actions[i].key->Some_0]),
                    command: Some(actions[i].command),
                    timeout_ms: None,
                },
            ),
    ensures
        checked(entries, n, global).actions == actions.take(n),
        checked(entries, n, global).timeouts == Seq::new(n as nat, |i: int| global),
        checked(entries, n, global).warnings.len() == 0,
        !checked(entries, n, global).used_defaults,
    decreases n,
{
    let set = checked(entries, n, global);
    if n == 0 {
        assert(set.actions =~= actions.take(0));
        assert(set.timeouts =~= Seq::new(0, |i: int| global));
    } else {
        lemma_entries_check(entries, actions, n - 1, global);
        let a = actions[n - 1];
        let e = entries[n - 1];
        assert(verdict(e, n, actions.take(n - 1)) == Verdict::Accept(a));
        assert(set.actions =~= actions.take(n));
        assert(set.timeouts =~= Seq::new(n as nat, |i: int| global));
    }
}

proof fn lemma_known_keys(keys: Seq<Seq<char>>)
    requires
        forall|i: int|
            0 <= i < keys.len() ==> #[trigger] keys[i] == "actions"@ || keys[i] == "timeout_ms"@,
    ensures
        unknown_keys(keys).len() == 0,
    decreases keys.len(),
{
    if keys.len() > 0 {
        assert forall|i: int| 0 <= i < keys.drop_last().len() implies #[trigger] keys.drop_last()[i]
            == "actions"@ || keys.drop_last()[i] == "timeout_ms"@ by {
            assert(keys.drop_last()[i] == keys[i]);
        }
        lemma_known_keys(keys.drop_last());
        assert(keys[keys.len() - 1] == "actions"@ || keys[keys.len() - 1] == "timeout_ms"@);
    }
}

/// A document of the built-in entries is the built-in set: where the list holds
/// a table for each built-in action, with its label, key and command, and the
/// keys at the top are those a config knows, the built-in actions load in their
/// order, without a warning and without falling back. Where the document asks
/// for no other time, so do their times.
pub proof fn law_the_built_in_entries_load_as_the_built_in_actions(
    text: Seq<char>,
    root: Node,
    keys: Option<Seq<Seq<char>>>,
    list: Node,
)
    requires
        root.value matches NodeValue::Table(entries) && first_key_fault(entries@, 0) is None
            && toml_doc::entry(entries@, "actions"@) == Some(list),
        list.value matches NodeValue::Array(items) && items@.len() == default_actions().len()
            && forall|i: int|
            0 <= i < items@.len() ==> is_entry_of(#[trigger] items@[i], default_actions()[i]),
        keys matches Some(names) ==> forall|i: int|
            0 <= i < names.len() ==> #[trigger] names[i] == "actions"@ || names[i] == "timeout_ms"@,
    ensures
        ({
            let set = loaded(text, Ok(root), keys);
            let time = as_ms(toml_doc::entry(root.value->Table_0@, "timeout_ms"@));
            &&& set.actions == default_actions()
            &&& set.warnings.len() == 0
            &&& !set.used_defaults
            &&& time == Ok::<Option<u64>, usize>(None) || time == Ok::<Option<u64>, usize>(
                Some(DEFAULT_TIMEOUT_MS),
            ) ==> set.timeouts == default_set().timeouts
        }),
{
    let file = vstd::utf8::encode_utf8(text);
    let items = list.value->Array_0@;
    let actions = default_actions();
    law_a_malformed_entry_costs_only_itself(text, root, keys, list);
    let raw = config_in(file, root)->Ok_0;
    let global = match raw.timeout_ms {
        Some(ms) => ms,
        None => DEFAULT_TIMEOUT_MS,
    };
    assert forall|i: int| 0 <= i < raw.actions.len() implies #[trigger] raw.actions[i] == Ok::<
        RawActionView,
        Seq<char>,
    >(
        RawActionView {
            label: Some(actions[i].label),
            key: Some(seq![actions[i].key->Some_0]),
            command: Some(actions[i].command),
            timeout_ms: None,
        },
    ) by {
        assert(raw.actions[i] == placed_entry(file, items[i]));
        assert(is_entry_of(items[i], actions[i]));
        lemma_entry_of(file, items[i], actions[i]);
    }
    assert forall|i: int| 0 <= i < actions.len() implies (#[trigger] actions[i]).key == Some(
        text::digit_char(i + 1),
    ) && is_hotkey(text::digit_char(i + 1)) && !text::blank(actions[i].command) && !claimed(
        actions.take(i),
        text::digit_char(i + 1),
    ) by {
        lemma_built_in_entries(i);
    }
    let n = raw.actions.len() as int;
    lemma_entries_check(raw.actions, actions, n, global);
    lemma_known_keys(known_keys(keys));
    let set = loaded(text, Ok(root), keys);
    assert(actions.take(n) =~= actions);
    assert(set.actions == actions);
    if global == DEFAULT_TIMEOUT_MS {
        assert(set.timeouts =~= default_set().timeouts);
    }
}

/// An action and its time are what an entry at a 1-based position says: its command
/// to the letter; its label, or one that counts the entries; its key, where it has
/// one; and its own time, or else the one of the file, or else two minutes.
pub open spec fn stands_for(
    e: RawActionView,
    position: int,
    given: Option<u64>,
    a: ActionView,
    ms: u64,
) -> bool {
    &&& e.command == Some(a.command)
    &&& e.label matches Some(label) ==> a.label == label
    &&& e.label is None ==> a.label == "action "@ + text::decimal(position as nat)
    &&& a.key matches Some(c) ==> '1' <= c <= '9' && e.key == Some(seq![c])
    &&& a.key is None ==> (e.key matches Some(k) ==> k.len() == 0)
    &&& e.timeout_ms matches Some(own) ==> ms == own
    &&& e.timeout_ms is None ==> (given matches Some(global) ==> ms == global)
    &&& e.timeout_ms is None && given is None ==> ms == 120_000
}

/// Each action of the set comes from an entry of its own, in the order of the
/// entries, and says what the entry says: `from[k]` is the entry of the action at
/// `k`.
pub open spec fn comes_from(raw: RawConfigView, set: LoadedView, from: Seq<int>) -> bool {
    &&& from.len() == set.actions.len() == set.timeouts.len()
    &&& forall|j: int, k: int| 0 <= j < k < from.len() ==> #[trigger] from[j] < #[trigger] from[k]
    &&& forall|k: int|
        #![trigger from[k]]
        0 <= k < from.len() ==> 0 <= from[k] < raw.actions.len() && (raw.actions[from[k]]
            matches Ok(e) && stands_for(
            e,
            from[k] + 1,
            raw.timeout_ms,
            set.actions[k],
            set.timeouts[k],
        ))
}

proof fn lemma_checked_comes_from(raw: RawConfigView, n: int) -> (from: Seq<int>)
    requires
        0 <= n <= raw.actions.len(),
    ensures
        ({
            let global = match raw.timeout_ms {
                Some(ms) => ms,
                None => DEFAULT_TIMEOUT_MS,
            };
            &&& comes_from(raw, checked(raw.actions, n, global), from)
            &&& forall|k: int| 0 <= k < from.len() ==> #[trigger] from[k] < n
        }),
    decreases n,
{
    let global = match raw.timeout_ms {
        Some(ms) => ms,
        None => DEFAULT_TIMEOUT_MS,
    };
    if n == 0 {
        seq![]
    } else {
        let before = checked(raw.actions, n - 1, global);
        let set = checked(raw.actions, n, global);
        let front = lemma_checked_comes_from(raw, n - 1);
        let e = raw.actions[n - 1];
        match verdict(e, n, before.actions) {
            Verdict::Accept(a) => {
                let from = front.push(n - 1);
                law_an_entry_is_an_action_unless_it_is_at_fault(e->Ok_0, n, before.actions);
                if let Some(k) = e->Ok_0.key {
                    assert(k.len() == 1 ==> k =~= seq![k[0]]);
                }
                assert(stands_for(
                    e->Ok_0,
                    n,
                    raw.timeout_ms,
                    set.actions[from.len() - 1],
                    set.timeouts[from.len() - 1],
                ));
                assert forall|k: int|
                    #![trigger from[k]]
                    0 <= k < from.len() implies 0 <= from[k] < raw.actions.len() && (
                raw.actions[from[k]] matches Ok(x) && stands_for(
                    x,
                    from[k] + 1,
                    raw.timeout_ms,
                    set.actions[k],
                    set.timeouts[k],
                )) by {
                    if k < front.len() {
                        assert(from[k] == front[k]);
                        assert(set.actions[k] == before.actions[k]);
                        assert(set.timeouts[k] == before.timeouts[k]);
                    }
                }
                from
            },
            Verdict::Skip(w) => front,
        }
    }
}

/// The actions of a set are what the entries of the file say, in their order: each
/// with the label, the key and the command of one entry, and with the time that
/// this entry sets, whatever it is. An entry that sets none has the time of the
/// file, and where the file sets none either, two minutes.
pub proof fn law_actions_are_what_their_entries_say(raw: RawConfigView, keys: Seq<Seq<char>>)
    ensures
        exists|from: Seq<int>| comes_from(raw, action_set(raw, keys), from),
{
    let from = lemma_checked_comes_from(raw, raw.actions.len() as int);
    assert(comes_from(raw, action_set(raw, keys), from));
}

/// An entry that fits is an action unless it is at fault, and it is at fault only
/// where it has no command that says anything, where its key is not one of the
/// digits from 1 to 9, or where an action before it has that key. The warning for
/// an entry that is skipped tells its position and that it is skipped.
pub proof fn law_an_entry_is_an_action_unless_it_is_at_fault(
    e: RawActionView,
    position: int,
    before: Seq<ActionView>,
)
    ensures
        ({
            let says = e.command matches Some(c) && exists|i: int|
                0 <= i < c.len() && !text::is_space(#[trigger] c[i]);
            let keyed = e.key matches Some(k) && k.len() > 0;
            let valid = e.key matches Some(k) && k.len() == 1 && '1' <= k[0] <= '9';
            let taken = exists|i: int|
                0 <= i < before.len() && (#[trigger] before[i]).key is Some && e.key == Some(
                    seq![before[i].key->0],
                );
            verdict(Ok(e), position, before) is Accept <==> says && (!keyed || valid && !taken)
        }),
        verdict(Ok(e), position, before) matches Verdict::Accept(a) ==> {
            &&& e.command == Some(a.command)
            &&& e.label matches Some(label) ==> a.label == label
            &&& e.label is None ==> a.label == "action "@ + text::decimal(position as nat)
            &&& a.key matches Some(c) ==> '1' <= c <= '9' && e.key == Some(seq![c])
            &&& a.key is None ==> (e.key matches Some(k) ==> k.len() == 0)
        },
        verdict(Ok(e), position, before) matches Verdict::Skip(w) ==> text::occurs_at(
            w,
            "action "@ + text::decimal(position as nat) + " "@,
            0,
        ) && "skipped"@.is_suffix_of(w),
{
    if let Some(c) = e.command {
        text::lemma_blank(c);
    }
    if let Some(k) = e.key {
        if k.len() == 1 {
            assert(k =~= seq![k[0]]);
            if claimed(before, k[0]) {
                let i = choose|i: int|
                    0 <= i < before.len() && (#[trigger] before[i]).key == Some(k[0]);
                assert(before[i].key == Some(k[0]));
            }
        }
    }
    reveal_strlit(" (\"");
    reveal_strlit(" ");
    reveal_strlit("skipped");
    reveal_strlit(" — skipped");
    reveal_strlit(" has no command — skipped");
    reveal_strlit("\", must be 1-9 — skipped");
    if let Verdict::Skip(w) = verdict(Ok(e), position, before) {
        let pat = "action "@ + text::decimal(position as nat) + " "@;
        assert(w.subrange(0, pat.len() as int) =~= pat);
        assert("skipped"@ =~= w.subrange(w.len() - 7, w.len() as int));
    }
}

/// A malformed entry is skipped with a warning that tells its position and where in
/// the file it is at fault.
pub proof fn law_a_malformed_entry_is_told_by_its_place(
    place: Seq<char>,
    position: int,
    before: Seq<ActionView>,
)
    ensures
        verdict(Err(place), position, before) matches Verdict::Skip(w) && text::occurs_at(
            w,
            "action "@ + text::decimal(position as nat) + " "@,
            0,
        ) && text::holds(w, place) && "skipped"@.is_suffix_of(w),
{
    reveal_strlit(" is malformed at ");
    reveal_strlit(" ");
    reveal_strlit("skipped");
    reveal_strlit(" — skipped");
    let w = verdict(Err(place), position, before)->Skip_0;
    let pat = "action "@ + text::decimal(position as nat) + " "@;
    let n = ("action "@ + text::decimal(position as nat) + " is malformed at "@).len() as int;
    assert(w.subrange(0, pat.len() as int) =~= pat);
    assert(w.subrange(n, n + place.len()) =~= place);
    assert(text::occurs_at(w, place, n));
    assert("skipped"@ =~= w.subrange(w.len() - 7, w.len() as int));
}

/// A time is a whole number of milliseconds, as it is written: every number that
/// fits is taken as it is, and one that is negative or too large, or that is no
/// number, is at fault where it stands.
pub proof fn law_a_time_is_a_whole_number(node: Node, n: nat)
    ensures
        as_ms(None) == Ok::<Option<u64>, usize>(None),
        (node.value matches NodeValue::Integer { digits, radix } && radix == 10 && digits@
            == text::decimal(n)) ==> as_ms(Some(node)) == if n <= u64::MAX {
            Ok::<Option<u64>, usize>(Some(n as u64))
        } else {
            Err(node.at)
        },
        (node.value matches NodeValue::Integer { digits, radix } && radix == 10 && n > 0 && digits@
            == text::decimal_int(-(n as int))) ==> as_ms(Some(node)) == Err::<Option<u64>, usize>(
            node.at,
        ),
        !(node.value is Integer) ==> as_ms(Some(node)) == Err::<Option<u64>, usize>(node.at),
{
    text::law_a_number_reads_back(n);
}

/// The fields of an entry that is a table are read under their names: each of them
/// is the text or the number that stands there, and is missing where nothing does.
pub proof fn law_an_entry_reads_its_fields(node: Node, name: Seq<char>)
    requires
        node.value is Table,
        any_entry(node) is Ok,
    ensures
        ({
            let fields = node.value->Table_0@;
            let e = any_entry(node)->Ok_0;
            &&& toml_doc::entry(fields, "label"@) is None <==> e.label is None
            &&& toml_doc::entry(fields, "key"@) is None <==> e.key is None
            &&& toml_doc::entry(fields, "command"@) is None <==> e.command is None
            &&& toml_doc::entry(fields, "timeout_ms"@) is None <==> e.timeout_ms is None
            &&& e.label matches Some(t) ==> field_holds(fields, "label"@, t)
            &&& e.key matches Some(t) ==> field_holds(fields, "key"@, t)
            &&& e.command matches Some(t) ==> field_holds(fields, "command"@, t)
            &&& e.timeout_ms matches Some(ms) ==> as_ms(toml_doc::entry(fields, "timeout_ms"@))
                == Ok::<Option<u64>, usize>(Some(ms))
        }),
{
}

/// An element of the list is a table that writes an action down: its label and its
/// command, its key and its time where it has them, and nothing that is at fault.
pub open spec fn writes_down(node: Node, a: ActionView, own: Option<u64>) -> bool {
    node.value matches NodeValue::Table(fields) && {
        &&& field_holds(fields@, "label"@, a.label)
        &&& field_holds(fields@, "command"@, a.command)
        &&& a.key matches Some(c) ==> field_holds(fields@, "key"@, seq![c])
        &&& a.key is None ==> toml_doc::entry(fields@, "key"@) is None
        &&& own matches Some(ms) ==> writes_ms(toml_doc::entry(fields@, "timeout_ms"@), ms)
        &&& own is None ==> toml_doc::entry(fields@, "timeout_ms"@) is None
        &&& first_field_fault(fields@, 0) is None
    }
}

/// A value that writes a number of milliseconds in decimal.
pub open spec fn writes_ms(node: Option<Node>, ms: u64) -> bool {
    node matches Some(n) && (n.value matches NodeValue::Integer { digits, radix } && radix == 10
        && digits@ == text::decimal(ms as nat))
}

/// Actions that can stand together: each has a command that says something, and
/// their keys are digits from 1 to 9, no two the same.
pub open spec fn compatible(actions: Seq<ActionView>) -> bool {
    &&& forall|i: int|
        0 <= i < actions.len() ==> !text::blank((#[trigger] actions[i]).command) && (
        actions[i].key matches Some(c) ==> '1' <= c <= '9')
    &&& forall|i: int, j: int|
        0 <= i < j < actions.len() && (#[trigger] actions[i]).key is Some ==> actions[i].key != (
        #[trigger] actions[j]).key
}

proof fn lemma_written_entries(
    entries: Seq<Result<RawActionView, Seq<char>>>,
    actions: Seq<ActionView>,
    own: Seq<Option<u64>>,
    n: int,
    global: u64,
)
    requires
        0 <= n <= actions.len() == entries.len() == own.len(),
        compatible(actions),
        forall|i: int|
            0 <= i < entries.len() ==> #[trigger] entries[i] == Ok::<RawActionView, Seq<char>>(
                RawActionView {
                    label: Some(actions[i].label),
                    key: match actions[i].key {
                        Some(c) => Some(seq![c]),
                        None => None,
                    },
                    command: Some(actions[i].command),
                    timeout_ms: own[i],
                },
            ),
    ensures
        ({
            let set = checked(entries, n, global);
            &&& set.actions == actions.take(n)
            &&& set.timeouts == Seq::new(
                n as nat,
                |i: int|
                    match own[i] {
                        Some(ms) => ms,
                        None => global,
                    },
            )
            &&& set.warnings.len() == 0
            &&& !set.used_defaults
        }),
    decreases n,
{
    let set = checked(entries, n, global);
    let times = Seq::new(
        n as nat,
        |i: int|
            match own[i] {
                Some(ms) => ms,
                None => global,
            },
    );
    if n == 0 {
        assert(set.actions =~= actions.take(0));
        assert(set.timeouts =~= times);
    } else {
        lemma_written_entries(entries, actions, own, n - 1, global);
        let a = actions[n - 1];
        assert(entries[n - 1] is Ok);
        if let Some(c) = a.key {
            if claimed(actions.take(n - 1), c) {
                let i = choose|i: int|
                    0 <= i < n - 1 && (#[trigger] actions.take(n - 1)[i]).key == Some(c);
                assert(actions.take(n - 1)[i] == actions[i]);
                assert(actions[i].key == actions[n - 1].key);
            }
        }
        assert(verdict(entries[n - 1], n, actions.take(n - 1)) == Verdict::Accept(a));
        assert(set.actions =~= actions.take(n));
        assert(set.timeouts =~= times);
    }
}

/// A config loads as it is written. Where the list of a document writes down actions
/// that can stand together, one by one, and the keys at the top of it are those a
/// config knows, these actions load: all of them, in their order, with their labels,
/// keys and commands to the letter, each with its own time or the one of the file,
/// without a warning and without falling back.
pub proof fn law_a_config_loads_as_it_is_written(
    text: Seq<char>,
    root: Node,
    keys: Option<Seq<Seq<char>>>,
    list: Node,
    actions: Seq<ActionView>,
    own: Seq<Option<u64>>,
    given: Option<u64>,
)
    requires
        root.value matches NodeValue::Table(entries) && {
            &&& first_key_fault(entries@, 0) is None
            &&& toml_doc::entry(entries@, "actions"@) == Some(list)
            &&& given matches Some(ms) ==> writes_ms(toml_doc::entry(entries@, "timeout_ms"@), ms)
            &&& given is None ==> toml_doc::entry(entries@, "timeout_ms"@) is None
        },
        list.value matches NodeValue::Array(items) && items@.len() == actions.len() == own.len()
            && forall|i: int|
            0 <= i < items@.len() ==> writes_down(#[trigger] items@[i], actions[i], own[i]),
        actions.len() > 0,
        compatible(actions),
        keys matches Some(names) ==> forall|i: int|
            0 <= i < names.len() ==> #[trigger] names[i] == "actions"@ || names[i] == "timeout_ms"@,
    ensures
        ({
            let set = loaded(text, Ok(root), keys);
            &&& set.actions == actions
            &&& set.timeouts.len() == actions.len()
            &&& forall|i: int|
                0 <= i < actions.len() ==> #[trigger] set.timeouts[i] == match own[i] {
                    Some(ms) => ms,
                    None => match given {
                        Some(ms) => ms,
                        None => 120_000,
                    },
                }
            &&& set.warnings.len() == 0
            &&& !set.used_defaults
        }),
{
    let file = vstd::utf8::encode_utf8(text);
    let items = list.value->Array_0@;
    law_a_malformed_entry_costs_only_itself(text, root, keys, list);
    let raw = config_in(file, root)->Ok_0;
    let global: u64 = match given {
        Some(ms) => ms,
        None => DEFAULT_TIMEOUT_MS,
    };
    if let Some(ms) = given {
        let n = toml_doc::entry(root.value->Table_0@, "timeout_ms"@)->Some_0;
        law_a_time_is_a_whole_number(n, ms as nat);
    }
    assert(raw.timeout_ms == given);
    assert forall|i: int| 0 <= i < raw.actions.len() implies #[trigger] raw.actions[i] == Ok::<
        RawActionView,
        Seq<char>,
    >(
        RawActionView {
            label: Some(actions[i].label),
            key: match actions[i].key {
                Some(c) => Some(seq![c]),
                None => None,
            },
            command: Some(actions[i].command),
            timeout_ms: own[i],
        },
    ) by {
        assert(raw.actions[i] == placed_entry(file, items[i]));
        assert(writes_down(items[i], actions[i], own[i]));
        lemma_written_entry(file, items[i], actions[i], own[i]);
    }
    let n = raw.actions.len() as int;
    lemma_written_entries(raw.actions, actions, own, n, global);
    lemma_known_keys(known_keys(keys));
    assert(actions.take(n) =~= actions);
}

proof fn lemma_written_entry(file: Seq<u8>, node: Node, a: ActionView, own: Option<u64>)
    requires
        writes_down(node, a, own),
    ensures
        placed_entry(file, node) == Ok::<RawActionView, Seq<char>>(
            RawActionView {
                label: Some(a.label),
                key: match a.key {
                    Some(c) => Some(seq![c]),
                    None => None,
                },
                command: Some(a.command),
                timeout_ms: own,
            },
        ),
{
    if let Some(ms) = own {
        let n = toml_doc::entry(node.value->Table_0@, "timeout_ms"@)->Some_0;
        law_a_time_is_a_whole_number(n, ms as nat);
    }
}

/// A text that is not TOML is reported by the first line of what the parser says,
/// and a document with a value at its top that does not fit by the place of that
/// value. The operator is told that the defaults are used.
pub proof fn law_a_fallback_says_why(
    text: Seq<char>,
    tree: Result<Node, Seq<char>>,
    keys: Option<Seq<Seq<char>>>,
)
    ensures
        tree matches Err(e) ==> text::holds(
            loaded(text, tree, keys).warnings[0],
            text::first_line_or(e, "parse error"@),
        ),
        tree matches Ok(root) ==> (config_in(vstd::utf8::encode_utf8(text), root) matches Err(at)
            ==> text::holds(
            loaded(text, tree, keys).warnings[0],
            toml_doc::place_in(vstd::utf8::encode_utf8(text), at as int),
        )),
        loaded(text, tree, keys).used_defaults ==> "using defaults"@.is_suffix_of(
            loaded(text, tree, keys).warnings[0],
        ),
{
    let set = loaded(text, tree, keys);
    let file = vstd::utf8::encode_utf8(text);
    match tree {
        Err(e) => lemma_not_toml_tells(text::first_line_or(e, "parse error"@)),
        Ok(root) => match config_in(file, root) {
            Err(at) => {
                let place = toml_doc::place_in(file, at as int);
                let brief = toml_doc::error_heading(file, at as int);
                let w = not_toml(brief);
                lemma_not_toml_tells(brief);
                let i = choose|i: int| text::occurs_at(w, brief, i);
                let n = "TOML parse error at "@.len() as int;
                assert(w.subrange(i + n, i + n + place.len()) =~= brief.subrange(
                    n,
                    n + place.len(),
                ));
                assert(brief.subrange(n, n + place.len()) =~= place);
                assert(text::occurs_at(w, place, i + n));
            },
            Ok(raw) => law_a_set_that_was_read_is_no_fallback(raw, known_keys(keys)),
        },
    }
}

/// A set that was read out of a document is no fallback.
pub proof fn law_a_set_that_was_read_is_no_fallback(raw: RawConfigView, keys: Seq<Seq<char>>)
    ensures
        !action_set(raw, keys).used_defaults,
{
    law_checking_uses_no_defaults(
        raw.actions,
        raw.actions.len() as int,
        match raw.timeout_ms {
            Some(ms) => ms,
            None => DEFAULT_TIMEOUT_MS,
        },
    );
}

proof fn lemma_not_toml_tells(brief: Seq<char>)
    ensures
        text::holds(not_toml(brief), brief),
        "using defaults"@.is_suffix_of(not_toml(brief)),
{
    reveal_strlit("using defaults");
    reveal_strlit(") — using defaults");
    let w = not_toml(brief);
    let n = "config is not valid TOML ("@.len() as int;
    assert(w.subrange(n, n + brief.len()) =~= brief);
    assert(text::occurs_at(w, brief, n));
    assert("using defaults"@ =~= w.subrange(w.len() - 14, w.len() as int));
}

/// Every unknown key costs one warning, and no known one does; nothing else that a
/// set warns of is lost on that account.
pub proof fn law_only_unknown_keys_are_warned_of(raw: RawConfigView, keys: Seq<Seq<char>>)
    ensures
        ({
            let unknown = keys.filter(|k: Seq<char>| k != "actions"@ && k != "timeout_ms"@);
            let set = action_set(raw, keys);
            set.warnings.len() == unknown.len() + (raw.actions.len() - set.actions.len()) + if
                set.actions.len() == 0 {
                1int
            } else {
                0
            }
        }),
{
    let global = match raw.timeout_ms {
        Some(ms) => ms,
        None => DEFAULT_TIMEOUT_MS,
    };
    lemma_count_unknown(keys);
    law_every_entry_is_loaded_or_reported(raw.actions, raw.actions.len() as int, global);
}

proof fn lemma_count_unknown(keys: Seq<Seq<char>>)
    ensures
        unknown_keys(keys).len() == keys.filter(
            |k: Seq<char>| k != "actions"@ && k != "timeout_ms"@,
        ).len(),
    decreases keys.len(),
{
    reveal(Seq::filter);
    if keys.len() > 0 {
        lemma_count_unknown(keys.drop_last());
    }
}

/// An action has the time at its own place, and one that is not there two minutes.
pub proof fn law_a_time_stands_at_its_place(timeouts: Seq<u64>, i: int)
    requires
        0 <= i,
    ensures
        i < timeouts.len() ==> time_of(timeouts, i) == timeouts[i],
        i >= timeouts.len() ==> time_of(timeouts, i) == 120_000,
{
}

/// A starter file is written where there is none, and over one only by force.
pub proof fn law_a_config_is_never_overwritten_unasked(
    path: &str,
    present: bool,
    force: bool,
    r: Result<String, String>,
)
    requires
        call_ensures(write_default_config, (path, present, force), r),
    ensures
        r is Err <==> present && !force,
        r matches Ok(t) ==> t@ == starter_text(),
        r matches Err(e) ==> text::occurs_at(e@, path@, 0),
{
    if let Err(e) = r {
        assert(e@.subrange(0, path@.len() as int) =~= path@);
    }
}

/// The config that is named explicitly wins over the one in the config directory,
/// and that one over the one in the home directory; without any of them there is no
/// place for a config.
pub proof fn law_the_explicit_config_wins(
    explicit: bool,
    config_home: bool,
    home: bool,
    r: Option<Place>,
)
    requires
        call_ensures(config_path, (explicit, config_home, home), r),
    ensures
        r is Some <==> explicit || config_home || home,
        r matches Some(p) ==> (p.base == Base::Explicit <==> explicit),
        r matches Some(p) ==> (p.base == Base::ConfigHome <==> !explicit && config_home),
        r matches Some(p) ==> (p.base == Base::Home <==> !explicit && !config_home),
        r matches Some(p) ==> (!explicit ==> "voxtype-review/config.toml"@.is_suffix_of(p.below@)),
{
    reveal_strlit("voxtype-review/config.toml");
    reveal_strlit(".config/voxtype-review/config.toml");
    if let Some(p) = r {
        if !explicit {
            let want = "voxtype-review/config.toml"@;
            assert(want =~= p.below@.subrange(p.below@.len() - want.len(), p.below@.len() as int));
        }
    }
}

/// A number is the one its digits spell, in whatever base it is written.
pub proof fn law_a_time_can_be_written_in_any_base(node: Node, n: int)
    requires
        node.value matches NodeValue::Integer { digits, radix } && 2 <= radix <= 36 && digits@.len()
            > 0 && digits@[0] != '+' && digits@[0] != '-' && text::spelled(digits@, radix as int)
            == Some(n),
    ensures
        as_ms(Some(node)) == if n <= u64::MAX {
            Ok::<Option<u64>, usize>(Some(n as u64))
        } else {
            Err(node.at)
        },
{
    if let NodeValue::Integer { digits, radix } = node.value {
        text::law_only_digits_spell_a_number(digits@, radix as int);
    }
}

proof fn lemma_no_field_fault(fields: Seq<(String, Node)>, i: int)
    requires
        0 <= i <= fields.len(),
        forall|j: int|
            i <= j < fields.len() ==> field_fault((#[trigger] fields[j]).0@, fields[j].1) is None,
    ensures
        first_field_fault(fields, i) is None,
    decreases fields.len() - i,
{
    if i < fields.len() {
        assert(field_fault(fields[i].0@, fields[i].1) is None);
        lemma_no_field_fault(fields, i + 1);
    }
}

proof fn lemma_field_fault_at(fields: Seq<(String, Node)>, from: int, i: int)
    requires
        0 <= from <= i < fields.len(),
        forall|j: int|
            from <= j < i ==> field_fault((#[trigger] fields[j]).0@, fields[j].1) is None,
        field_fault(fields[i].0@, fields[i].1) is Some,
    ensures
        first_field_fault(fields, from) == field_fault(fields[i].0@, fields[i].1),
    decreases i - from,
{
    if from < i {
        assert(field_fault(fields[from].0@, fields[from].1) is None);
        lemma_field_fault_at(fields, from + 1, i);
    }
}

/// What is found under a name is one of the fields with this name.
proof fn lemma_entry_is_a_field<V>(fields: Seq<(String, V)>, name: Seq<char>) -> (i: int)
    requires
        toml_doc::entry(fields, name) is Some,
    ensures
        0 <= i < fields.len(),
        fields[i].0@ == name,
        toml_doc::entry(fields, name) == Some(fields[i].1),
    decreases fields.len(),
{
    if fields[0].0@ == name {
        0
    } else {
        let i = lemma_entry_is_a_field(fields.drop_first(), name);
        assert(fields.drop_first()[i] == fields[i + 1]);
        i + 1
    }
}

proof fn lemma_known_fields_fit(fields: Seq<(String, Node)>)
    requires
        first_field_fault(fields, 0) is None,
        forall|j: int|
            0 <= j < fields.len() ==> field_fault((#[trigger] fields[j]).0@, fields[j].1) is None,
    ensures
        table_fields(fields) is Ok,
{
    if toml_doc::entry(fields, "command"@) is Some {
        let i = lemma_entry_is_a_field(fields, "command"@);
        assert(field_fault(fields[i].0@, fields[i].1) is None);
    }
    if toml_doc::entry(fields, "key"@) is Some {
        let i = lemma_entry_is_a_field(fields, "key"@);
        assert(field_fault(fields[i].0@, fields[i].1) is None);
    }
    if toml_doc::entry(fields, "label"@) is Some {
        let i = lemma_entry_is_a_field(fields, "label"@);
        assert(field_fault(fields[i].0@, fields[i].1) is None);
    }
    if toml_doc::entry(fields, "timeout_ms"@) is Some {
        let i = lemma_entry_is_a_field(fields, "timeout_ms"@);
        reveal_strlit("timeout_ms");
        reveal_strlit("label");
        reveal_strlit("key");
        reveal_strlit("command");
        assert("timeout_ms"@.len() == 10 && "label"@.len() == 5 && "key"@.len() == 3
            && "command"@.len() == 7);
        assert(field_fault(fields[i].0@, fields[i].1) is None);
    }
}

/// An entry that is a table fits wherever its fields do: a label, a key and a command
/// may be any text, a time any number that fits, and a field that means nothing any
/// value that can be represented.
pub proof fn law_an_entry_fits_where_its_fields_do(node: Node)
    requires
        node.value is Table,
        forall|i: int|
            #![trigger node.value->Table_0@[i]]
            0 <= i < node.value->Table_0@.len() ==> {
                let name = node.value->Table_0@[i].0@;
                let field = node.value->Table_0@[i].1;
                if name == "label"@ || name == "key"@ || name == "command"@ {
                    field.value is Text
                } else if name == "timeout_ms"@ {
                    as_ms(Some(field)) is Ok
                } else {
                    toml_doc::fault(field) is None
                }
            },
    ensures
        any_entry(node) is Ok,
{
    let fields = node.value->Table_0@;
    assert forall|j: int| 0 <= j < fields.len() implies field_fault(
        (#[trigger] fields[j]).0@,
        fields[j].1,
    ) is None by {}
    lemma_no_field_fault(fields, 0);
    lemma_known_fields_fit(fields);
}

/// An entry that is a table is at fault where the first of its fields is that does not
/// fit.
pub proof fn law_an_entry_is_at_fault_where_a_field_is(node: Node, i: int)
    requires
        node.value is Table,
        0 <= i < node.value->Table_0@.len(),
        forall|j: int|
            #![trigger node.value->Table_0@[j]]
            0 <= j < i ==> {
                let name = node.value->Table_0@[j].0@;
                let field = node.value->Table_0@[j].1;
                if name == "label"@ || name == "key"@ || name == "command"@ {
                    field.value is Text
                } else if name == "timeout_ms"@ {
                    as_ms(Some(field)) is Ok
                } else {
                    toml_doc::fault(field) is None
                }
            },
    ensures
        ({
            let name = node.value->Table_0@[i].0@;
            let field = node.value->Table_0@[i].1;
            let told = any_entry(node);
            if name == "label"@ || name == "key"@ || name == "command"@ {
                !(field.value is Text) ==> told == Err::<RawActionView, usize>(field.at)
            } else if name == "timeout_ms"@ {
                as_ms(Some(field)) is Err ==> told == Err::<RawActionView, usize>(field.at)
            } else {
                toml_doc::fault(field) matches Some(at) ==> told == Err::<RawActionView, usize>(at)
            }
        }),
{
    let fields = node.value->Table_0@;
    assert forall|j: int| 0 <= j < i implies field_fault((#[trigger] fields[j]).0@, fields[j].1)
        is None by {}
    if field_fault(fields[i].0@, fields[i].1) is Some {
        lemma_field_fault_at(fields, 0, i);
    }
    reveal_strlit("timeout_ms");
    reveal_strlit("label");
    reveal_strlit("key");
    reveal_strlit("command");
    assert("timeout_ms"@.len() == 10 && "label"@.len() == 5 && "key"@.len() == 3
        && "command"@.len() == 7);
}

/// An entry that is a list is read by position: label, key, command and time, as far as
/// it goes. A date is an entry that says nothing, and anything else is at fault where
/// it stands.
pub proof fn law_an_entry_can_be_a_list(node: Node)
    ensures
        node.value matches NodeValue::Array(items) ==> (any_entry(node) matches Ok(e) ==> {
            &&& e.label is Some <==> items@.len() > 0
            &&& e.key is Some <==> items@.len() > 1
            &&& e.command is Some <==> items@.len() > 2
            &&& e.timeout_ms is Some <==> items@.len() > 3
            &&& e.label matches Some(t) ==> (items@[0].value matches NodeValue::Text(s) && s@ == t)
            &&& e.key matches Some(t) ==> (items@[1].value matches NodeValue::Text(s) && s@ == t)
            &&& e.command matches Some(t) ==> (items@[2].value matches NodeValue::Text(s) && s@
                == t)
            &&& e.timeout_ms matches Some(ms) ==> as_ms(Some(items@[3])) == Ok::<
                Option<u64>,
                usize,
            >(Some(ms))
        }),
        node.value matches NodeValue::Array(items) ==> ((forall|i: int|
            0 <= i < 3 && i < items@.len() ==> (#[trigger] items@[i]).value is Text) && (items@.len()
            > 3 ==> as_ms(Some(items@[3])) is Ok) ==> any_entry(node) is Ok),
        node.value is Datetime ==> any_entry(node) == Ok::<RawActionView, usize>(
            RawActionView { label: None, key: None, command: None, timeout_ms: None },
        ),
        !(node.value is Table || node.value is Array || node.value is Datetime) ==> any_entry(node)
            == Err::<RawActionView, usize>(node.at),
{
    if let NodeValue::Array(items) = node.value {
        let list = items@;
        if forall|i: int| 0 <= i < 3 && i < list.len() ==> (#[trigger] list[i]).value is Text {
            if list.len() > 0 {
                assert(list[0].value is Text);
            }
            if list.len() > 1 {
                assert(list[1].value is Text);
            }
            if list.len() > 2 {
                assert(list[2].value is Text);
            }
        }
    }
}

/// The keys at the top of a document fit wherever the list of actions is a list, the
/// time is a number that fits, and whatever else stands there can be represented; and
/// such a document is never replaced by the built-in set.
pub proof fn law_a_document_fits_where_its_keys_do(
    text: Seq<char>,
    root: Node,
    keys: Option<Seq<Seq<char>>>,
)
    requires
        root.value is Table,
        forall|i: int|
            #![trigger root.value->Table_0@[i]]
            0 <= i < root.value->Table_0@.len() ==> {
                let name = root.value->Table_0@[i].0@;
                let value = root.value->Table_0@[i].1;
                if name == "actions"@ {
                    value.value is Array
                } else if name == "timeout_ms"@ {
                    as_ms(Some(value)) is Ok
                } else {
                    toml_doc::fault(value) is None
                }
            },
    ensures
        first_key_fault(root.value->Table_0@, 0) is None,
        config_in(vstd::utf8::encode_utf8(text), root) is Ok,
        !loaded(text, Ok(root), keys).used_defaults,
{
    let entries = root.value->Table_0@;
    assert forall|j: int| 0 <= j < entries.len() implies key_fault(
        (#[trigger] entries[j]).0@,
        entries[j].1,
    ) is None by {}
    lemma_no_key_fault(entries, 0);
    if toml_doc::entry(entries, "actions"@) is Some {
        let i = lemma_entry_is_a_field(entries, "actions"@);
        assert(entries[i].1.value is Array);
    }
    if toml_doc::entry(entries, "timeout_ms"@) is Some {
        let i = lemma_entry_is_a_field(entries, "timeout_ms"@);
        reveal_strlit("timeout_ms");
        reveal_strlit("actions");
        assert("timeout_ms"@.len() == 10 && "actions"@.len() == 7);
        assert(as_ms(Some(entries[i].1)) is Ok);
    }
    let raw = config_in(vstd::utf8::encode_utf8(text), root)->Ok_0;
    law_checking_uses_no_defaults(
        raw.actions,
        raw.actions.len() as int,
        match raw.timeout_ms {
            Some(ms) => ms,
            None => DEFAULT_TIMEOUT_MS,
        },
    );
}

proof fn lemma_no_key_fault(entries: Seq<(String, Node)>, i: int)
    requires
        0 <= i <= entries.len(),
        forall|j: int|
            i <= j < entries.len() ==> key_fault((#[trigger] entries[j]).0@, entries[j].1) is None,
    ensures
        first_key_fault(entries, i) is None,
    decreases entries.len() - i,
{
    if i < entries.len() {
        assert(key_fault(entries[i].0@, entries[i].1) is None);
        lemma_no_key_fault(entries, i + 1);
    }
}

/// A file that could not be read is named in the warning, with the reason; one that is not
/// there is said not to be; and one that was read comes to what its text does.
pub proof fn law_what_became_of_the_file_is_told(
    path: String,
    error: String,
    written: String,
    same: &str,
    unreadable: Loaded,
    absent: Loaded,
    read: Loaded,
    alone: Loaded,
)
    requires
        same@ == written@,
        call_ensures(load, (ConfigRead::Unreadable { path, error },), unreadable),
        call_ensures(load, (ConfigRead::Absent,), absent),
        call_ensures(load, (ConfigRead::Text(written),), read),
        call_ensures(parse, (same,), alone),
    ensures
        unreadable.warnings@.len() == 1,
        text::holds(unreadable.warnings@[0]@, path@ + ": "@ + error@),
        absent.warnings@.len() == 1,
        text::holds(absent.warnings@[0]@, "no config"@),
        unreadable.used_defaults && absent.used_defaults,
        unreadable@.actions == default_actions() && absent@.actions == default_actions(),
        read@ == alone@,
{
    let told = place::could_not_text("read"@, path@, error@) + " — using defaults"@;
    assert(text::texts(unreadable.warnings@).len() == 1);
    assert(text::texts(unreadable.warnings@)[0] == told);
    assert(unreadable.warnings@[0]@ == told);
    let n = ("could not "@ + "read"@ + " "@).len() as int;
    let pat = path@ + ": "@ + error@;
    assert(told.subrange(n, n + pat.len()) =~= pat);
    assert(text::occurs_at(told, pat, n));
    let gone = "there is no config — using defaults"@;
    reveal_strlit("there is no config — using defaults");
    reveal_strlit("no config");
    assert(text::texts(absent.warnings@).len() == 1);
    assert(text::texts(absent.warnings@)[0] == gone);
    assert(absent.warnings@[0]@ == gone);
    assert(gone.subrange(9, 18) =~= "no config"@);
    assert(text::occurs_at(gone, "no config"@, 9));
}

/// The built-in actions have the hotkeys from 1 on, in their order, two minutes each, and
/// commands that put a prompt before the transcript. All but the translation are told to
/// keep the language.
pub proof fn law_the_built_in_actions_are_keyed_in_order(i: int)
    requires
        0 <= i < default_actions().len(),
    ensures
        default_actions().len() == 5,
        default_actions()[i].key == Some(text::digit_char(i + 1)),
        default_set().timeouts.len() == 5 && default_set().timeouts[i] == 120_000,
        default_set().used_defaults && default_set().warnings.len() == 0,
        default_actions()[i].label != "Translate to English"@ ==> text::holds(
            default_actions()[i].command,
            KEEP_LANGUAGE@,
        ),
        COMMAND_HEAD@.is_prefix_of(default_actions()[i].command),
        COMMAND_TAIL@.is_suffix_of(default_actions()[i].command),
{
    lemma_built_in_entries(i);
    let c = default_actions()[i].command;
    assert(COMMAND_HEAD@ =~= c.subrange(0, COMMAND_HEAD@.len() as int));
    assert(COMMAND_TAIL@ =~= c.subrange(c.len() - COMMAND_TAIL@.len(), c.len() as int));
    if default_actions()[i].label != "Translate to English"@ {
        let k = KEEP_LANGUAGE@;
        let n = c.len() - COMMAND_TAIL@.len() - k.len();
        assert(c.subrange(n, n + k.len()) =~= k);
        assert(text::occurs_at(c, k, n));
    }
}

/// A document is at fault where the first of the keys at its top is that does not fit: a
/// list of actions that is none, a time that is none, or a value that cannot be
/// represented. The built-in set is offered then.
pub proof fn law_a_document_is_at_fault_where_a_key_is(
    text: Seq<char>,
    root: Node,
    keys: Option<Seq<Seq<char>>>,
    i: int,
)
    requires
        root.value is Table,
        0 <= i < root.value->Table_0@.len(),
        forall|j: int|
            #![trigger root.value->Table_0@[j]]
            0 <= j < i ==> {
                let name = root.value->Table_0@[j].0@;
                let value = root.value->Table_0@[j].1;
                if name == "actions"@ {
                    value.value is Array
                } else if name == "timeout_ms"@ {
                    as_ms(Some(value)) is Ok
                } else {
                    toml_doc::fault(value) is None
                }
            },
    ensures
        ({
            let name = root.value->Table_0@[i].0@;
            let value = root.value->Table_0@[i].1;
            let told = config_in(vstd::utf8::encode_utf8(text), root);
            let set = loaded(text, Ok(root), keys);
            if name == "actions"@ {
                !(value.value is Array) ==> told == Err::<RawConfigView, usize>(value.at)
                    && set.used_defaults
            } else if name == "timeout_ms"@ {
                as_ms(Some(value)) is Err ==> told == Err::<RawConfigView, usize>(value.at)
                    && set.used_defaults
            } else {
                toml_doc::fault(value) matches Some(at) ==> told == Err::<RawConfigView, usize>(at)
                    && set.used_defaults
            }
        }),
{
    let entries = root.value->Table_0@;
    assert forall|j: int| 0 <= j < i implies key_fault((#[trigger] entries[j]).0@, entries[j].1)
        is None by {}
    if key_fault(entries[i].0@, entries[i].1) is Some {
        lemma_key_fault_at(entries, 0, i);
    }
    reveal_strlit("timeout_ms");
    reveal_strlit("actions");
    assert("timeout_ms"@.len() == 10 && "actions"@.len() == 7);
}

proof fn lemma_key_fault_at(entries: Seq<(String, Node)>, from: int, i: int)
    requires
        0 <= from <= i < entries.len(),
        forall|j: int|
            from <= j < i ==> key_fault((#[trigger] entries[j]).0@, entries[j].1) is None,
        key_fault(entries[i].0@, entries[i].1) is Some,
    ensures
        first_key_fault(entries, from) == key_fault(entries[i].0@, entries[i].1),
    decreases i - from,
{
    if from < i {
        assert(key_fault(entries[from].0@, entries[from].1) is None);
        lemma_key_fault_at(entries, from + 1, i);
    }
}

/// The model of a set leaves nothing out: every action with its time, and every warning,
/// each at its own place.
pub proof fn law_the_model_of_a_set_is_faithful(set: Loaded, i: int)
    ensures
        set@.actions.len() == set.actions@.len(),
        set@.timeouts == set.timeouts@,
        set@.warnings.len() == set.warnings@.len(),
        set@.used_defaults == set.used_defaults,
        0 <= i < set.actions@.len() ==> set@.actions[i] == set.actions@[i]@,
        0 <= i < set.warnings@.len() ==> set@.warnings[i] == set.warnings@[i]@,
{
}

/// An entry that sets a time is given that time, whatever it is and whatever the time of
/// the file; one that sets none is given the time of the file.
pub proof fn law_an_entry_is_given_its_own_time(e: RawActionView, global: u64, ms: u64)
    ensures
        e.timeout_ms == Some(ms) ==> time_asked(Ok(e), global) == ms,
        e.timeout_ms is None ==> time_asked(Ok(e), global) == global,
{
}

} // verus!
