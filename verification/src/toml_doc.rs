//! TOML documents as plain values.

use vstd::prelude::*;

use toml::de::DeValue;

use crate::text;

verus! {

// ---------------------------------------------------------------------------
// Documents with positions
// ---------------------------------------------------------------------------

/// A value of a TOML document, and the byte at which it starts.
#[derive(Debug)]
pub struct Node {
    pub at: usize,
    pub value: NodeValue,
}

/// What a value of a TOML document is, as far as it is read. The entries of a
/// table are in the order in which toml keeps them: that of their keys, unless
/// its feature `preserve_order` is on.
#[derive(Debug)]
pub enum NodeValue {
    Text(String),
    /// The digits as written, without prefix and underscores, and their base.
    Integer { digits: String, radix: u32 },
    /// A float as written, without underscores.
    Float(String),
    Boolean,
    /// A date, a time or both.
    Datetime,
    Array(Vec<Node>),
    Table(Vec<(String, Node)>),
}

/// `toml::Spanned`: a value and where it stands in its document.
#[verifier::external_type_specification]
#[verifier::external_body]
#[verifier::reject_recursive_types(T)]
pub struct ExSpanned<T>(toml::Spanned<T>);

/// `toml::de::DeValue`: a value of a parsed document.
#[verifier::external_type_specification]
#[verifier::external_body]
pub struct ExDeValue<'i>(toml::de::DeValue<'i>);

/// What a parsed value holds.
pub uninterp spec fn node_of(value: toml::Spanned<toml::de::DeValue<'_>>) -> Node;

/// What `toml::de::DeTable::parse` makes of a text: the document, or the text
/// that its error displays.
pub uninterp spec fn toml_tree(text: Seq<char>) -> Result<Node, Seq<char>>;

/// `toml::de::DeTable::parse`: the document in `text`, which is a table, or the
/// text that the error displays. Which texts are documents is left unsaid.
#[verifier::external_body]
fn parse_spanned<'i>(text: &'i str) -> (r: Result<toml::Spanned<toml::de::DeValue<'i>>, String>)
    ensures
        match r {
            Ok(v) => toml_tree(text@) == Ok::<Node, Seq<char>>(node_of(v)) && node_of(
                v,
            ).value is Table,
            Err(e) => toml_tree(text@) == Err::<Node, Seq<char>>(e@),
        },
{
    match toml::de::DeTable::parse(text) {
        Ok(root) => Ok(
            toml::Spanned::new(root.span(), toml::de::DeValue::Table(root.into_inner())),
        ),
        Err(e) => Err(e.to_string()),
    }
}

/// What a `toml::de::DeValue` holds, as plain values: variant by variant, with
/// the start of its span.
#[verifier::external_body]
fn open_node(value: toml::Spanned<DeValue<'_>>) -> (r: Node)
    ensures
        r == node_of(value),
{
    let at = value.span().start;
    let value = match value.into_inner() {
        DeValue::String(s) => NodeValue::Text(s.into_owned()),
        DeValue::Integer(i) => NodeValue::Integer { digits: i.as_str().to_string(), radix: i.radix() },
        DeValue::Float(f) => NodeValue::Float(f.to_string()),
        DeValue::Boolean(_) => NodeValue::Boolean,
        DeValue::Datetime(_) => NodeValue::Datetime,
        DeValue::Array(a) => NodeValue::Array(a.into_iter().map(open_node).collect()),
        DeValue::Table(t) => NodeValue::Table(
            t.into_iter().map(|(k, v)| (k.into_inner().into_owned(), open_node(v))).collect(),
        ),
    };
    Node { at, value }
}

/// The document in `text`, with positions.
pub fn parse_tree(text: &str) -> (r: Result<Node, String>)
    ensures
        match r {
            Ok(n) => toml_tree(text@) == Ok::<Node, Seq<char>>(n) && n.value is Table,
            Err(e) => toml_tree(text@) == Err::<Node, Seq<char>>(e@),
        },
{
    match parse_spanned(text) {
        Ok(v) => Ok(open_node(v)),
        Err(e) => Err(e),
    }
}

/// What `toml::Table` makes of a text when its keys are asked for.
pub uninterp spec fn toml_keys(text: Seq<char>) -> Option<Seq<Seq<char>>>;

/// `str::parse::<toml::Table>`, and the keys of the table: what stands at the top
/// of the document in `text`, where it is one that a `toml::Table` can hold.
/// Which texts are is left unsaid.
#[verifier::external_body]
pub(crate) fn parse_keys(text: &str) -> (r: Option<Vec<String>>)
    ensures
        match r {
            Some(keys) => toml_keys(text@) == Some(text::texts(keys@)),
            None => toml_keys(text@) is None,
        },
{
    text.parse::<toml::Table>().ok().map(|t| t.into_iter().map(|(k, _)| k).collect())
}

// ---------------------------------------------------------------------------
// Numbers
// ---------------------------------------------------------------------------

/// Whether `toml::from_str` can represent every value of a document.
pub uninterp spec fn document_fits(text: Seq<char>) -> bool;

/// `toml::from_str` into `serde::de::IgnoredAny`: whether `text` is a document
/// whose every value can be represented. Which texts are is left unsaid.
#[verifier::external_body]
fn test_document(text: &str) -> (r: bool)
    ensures
        r == document_fits(text@),
{
    toml::from_str::<serde::de::IgnoredAny>(text).is_ok()
}

/// A number that is written like this can be represented: a document that holds
/// nothing else can be.
pub open spec fn number_fits(written: Seq<char>) -> bool {
    document_fits("number = "@ + written)
}

fn test_number(written: &str) -> (r: bool)
    ensures
        r == number_fits(written@),
{
    let mut document = "number = ".to_string();
    document.append(written);
    test_document(document.as_str())
}

/// An integer as it is written.
pub open spec fn written_integer(digits: Seq<char>, radix: u32) -> Seq<char> {
    let prefix = if radix == 2 {
        "0b"@
    } else if radix == 8 {
        "0o"@
    } else if radix == 16 {
        "0x"@
    } else {
        ""@
    };
    prefix + digits
}

/// Where the first number in a value that cannot be represented starts.
pub open spec fn fault(node: Node) -> Option<usize>
    decreases node, 0int,
{
    match node.value {
        NodeValue::Integer { digits, radix } => if number_fits(written_integer(digits@, radix)) {
            None
        } else {
            Some(node.at)
        },
        NodeValue::Float(written) => if number_fits(written@) {
            None
        } else {
            Some(node.at)
        },
        NodeValue::Array(items) => first_fault(items@, 0),
        NodeValue::Table(entries) => first_entry_fault(entries@, 0),
        _ => None,
    }
}

/// Where the first number in the values from `i` on that cannot be represented
/// starts.
pub open spec fn first_fault(items: Seq<Node>, i: int) -> Option<usize>
    decreases items, items.len() - i,
{
    if i < 0 || i >= items.len() {
        None
    } else {
        match fault(items[i]) {
            Some(at) => Some(at),
            None => first_fault(items, i + 1),
        }
    }
}

/// Where the first number in the entries from `i` on that cannot be represented
/// starts.
pub open spec fn first_entry_fault(entries: Seq<(String, Node)>, i: int) -> Option<usize>
    decreases entries, entries.len() - i,
{
    if i < 0 || i >= entries.len() {
        None
    } else {
        match fault(entries[i].1) {
            Some(at) => Some(at),
            None => first_entry_fault(entries, i + 1),
        }
    }
}

fn write_integer(digits: &str, radix: u32) -> (r: String)
    ensures
        r@ == written_integer(digits@, radix),
{
    let prefix: &str = if radix == 2 {
        "0b"
    } else if radix == 8 {
        "0o"
    } else if radix == 16 {
        "0x"
    } else {
        ""
    };
    let mut r = prefix.to_string();
    r.append(digits);
    r
}

/// Where the first number in a value that cannot be represented starts.
pub fn find_fault(node: &Node) -> (r: Option<usize>)
    ensures
        r == fault(*node),
    decreases node,
{
    match &node.value {
        NodeValue::Integer { digits, radix } => {
            if test_number(write_integer(digits.as_str(), *radix).as_str()) {
                None
            } else {
                Some(node.at)
            }
        },
        NodeValue::Float(written) => {
            if test_number(written.as_str()) {
                None
            } else {
                Some(node.at)
            }
        },
        NodeValue::Array(items) => {
            let mut i: usize = 0;
            while i < items.len()
                invariant
                    i <= items@.len(),
                    node.value matches NodeValue::Array(v) && *items == v,
                    first_fault(items@, 0) == first_fault(items@, i as int),
                decreases items@.len() - i,
            {
                assert(decreases_to!(node => items@[i as int]));
                match find_fault(&items[i]) {
                    Some(at) => return Some(at),
                    None => {},
                }
                i = i + 1;
            }
            None
        },
        NodeValue::Table(entries) => {
            let mut i: usize = 0;
            while i < entries.len()
                invariant
                    i <= entries@.len(),
                    node.value matches NodeValue::Table(v) && *entries == v,
                    first_entry_fault(entries@, 0) == first_entry_fault(entries@, i as int),
                decreases entries@.len() - i,
            {
                assert(decreases_to!(node => entries@[i as int].1));
                match find_fault(&entries[i].1) {
                    Some(at) => return Some(at),
                    None => {},
                }
                i = i + 1;
            }
            None
        },
        _ => None,
    }
}

// ---------------------------------------------------------------------------
// Documents as `toml::Value` shows them
// ---------------------------------------------------------------------------

/// A value of a TOML document, as far as it is shown.
#[derive(Debug)]
pub enum Item {
    Text(String),
    Array(Vec<Item>),
    /// The entries in the order in which toml keeps them (that of their keys,
    /// unless its feature `preserve_order` is on), and the table as it displays.
    Table { entries: Vec<(String, Item)>, shown: String },
    /// Any other value, as it displays.
    Other(String),
}

/// `toml::Value`: a value of a document.
#[verifier::external_type_specification]
#[verifier::external_body]
pub struct ExValue(toml::Value);

/// What a `toml::Value` holds.
pub uninterp spec fn item_of(value: toml::Value) -> Item;

/// What `toml::from_str` makes of a text when a `toml::Value` is asked for: the
/// document, or the text that its error displays.
pub uninterp spec fn toml_value(text: Seq<char>) -> Result<Item, Seq<char>>;

/// `toml::from_str::<toml::Value>`: the document in `text`, or the text that the
/// error displays. Which texts are documents is left unsaid.
#[verifier::external_body]
fn parse_value(text: &str) -> (r: Result<toml::Value, String>)
    ensures
        match r {
            Ok(v) => toml_value(text@) == Ok::<Item, Seq<char>>(item_of(v)),
            Err(e) => toml_value(text@) == Err::<Item, Seq<char>>(e@),
        },
{
    toml::from_str::<toml::Value>(text).map_err(|e| e.to_string())
}

/// What a `toml::Value` holds, as plain values: variant by variant, with what
/// its `Display` writes for the values that are only shown.
#[verifier::external_body]
fn open_item(value: toml::Value) -> (r: Item)
    ensures
        r == item_of(value),
{
    let shown = value.to_string();
    match value {
        toml::Value::String(s) => Item::Text(s),
        toml::Value::Array(a) => Item::Array(a.into_iter().map(open_item).collect()),
        toml::Value::Table(t) => Item::Table {
            entries: t.into_iter().map(|(k, v)| (k, open_item(v))).collect(),
            shown,
        },
        toml::Value::Integer(_) => Item::Other(shown),
        toml::Value::Float(_) => Item::Other(shown),
        toml::Value::Boolean(_) => Item::Other(shown),
        toml::Value::Datetime(_) => Item::Other(shown),
    }
}

/// The document in `text`, as it is shown.
pub fn parse_item(text: &str) -> (r: Result<Item, String>)
    ensures
        match r {
            Ok(i) => toml_value(text@) == Ok::<Item, Seq<char>>(i),
            Err(e) => toml_value(text@) == Err::<Item, Seq<char>>(e@),
        },
{
    match parse_value(text) {
        Ok(v) => Ok(open_item(v)),
        Err(e) => Err(e),
    }
}

// ---------------------------------------------------------------------------
// Looking values up
// ---------------------------------------------------------------------------

/// The value under `key`.
pub open spec fn entry<V>(entries: Seq<(String, V)>, key: Seq<char>) -> Option<V>
    decreases entries.len(),
{
    if entries.len() == 0 {
        None
    } else if entries[0].0@ == key {
        Some(entries[0].1)
    } else {
        entry(entries.drop_first(), key)
    }
}

/// The value under `key`.
pub fn find_entry<'a, V>(entries: &'a Vec<(String, V)>, key: &str) -> (r: Option<&'a V>)
    ensures
        match r {
            Some(v) => entry(entries@, key@) == Some(*v),
            None => entry(entries@, key@) is None,
        },
{
    let mut i: usize = 0;
    assert(entries@.skip(0) =~= entries@);
    while i < entries.len()
        invariant
            i <= entries@.len(),
            entry(entries@, key@) == entry(entries@.skip(i as int), key@),
        decreases entries@.len() - i,
    {
        let ghost here = entries@.skip(i as int);
        assert(here[0] == entries@[i as int]);
        assert(here.drop_first() =~= entries@.skip(i + 1));
        if text::same(entries[i].0.as_str(), key) {
            return Some(&entries[i].1);
        }
        i = i + 1;
    }
    assert(entries@.skip(i as int).len() == 0);
    None
}

/// The value under `key`, where `item` is a table that has one.
pub open spec fn member(item: Item, key: Seq<char>) -> Option<Item> {
    match item {
        Item::Table { entries, shown } => entry(entries@, key),
        _ => None,
    }
}

/// The value under `key`, where `item` is a table that has one.
pub fn get<'a>(item: &'a Item, key: &str) -> (r: Option<&'a Item>)
    ensures
        match r {
            Some(v) => member(*item, key@) == Some(*v),
            None => member(*item, key@) is None,
        },
{
    match item {
        Item::Table { entries, shown } => find_entry(entries, key),
        _ => None,
    }
}

// ---------------------------------------------------------------------------
// Positions
// ---------------------------------------------------------------------------

/// How many newlines stand in `bytes`.
pub open spec fn newlines(bytes: Seq<u8>) -> nat
    decreases bytes.len(),
{
    if bytes.len() == 0 {
        0
    } else {
        newlines(bytes.drop_last()) + (if bytes.last() == 10 {
            1nat
        } else {
            0
        })
    }
}

/// How many characters start in `bytes` behind the last newline.
pub open spec fn column(bytes: Seq<u8>) -> nat
    decreases bytes.len(),
{
    if bytes.len() == 0 || bytes.last() == 10 {
        0
    } else {
        column(bytes.drop_last()) + (if 128 <= bytes.last() < 192 {
            0nat
        } else {
            1
        })
    }
}

/// Where byte `at` of a text stands.
pub open spec fn place_in(bytes: Seq<u8>, at: int) -> Seq<char> {
    let before = bytes.take(if at < bytes.len() { at } else { bytes.len() as int });
    "line "@ + text::decimal(newlines(before) + 1) + ", column "@ + text::decimal(
        column(before) + 1,
    )
}

/// The heading of a parse error at byte `at` of a text.
pub open spec fn error_heading(bytes: Seq<u8>, at: int) -> Seq<char> {
    "TOML parse error at "@ + place_in(bytes, at)
}

/// The heading of a parse error at byte `at` of `text`.
pub fn heading(text: &str, at: usize) -> (r: String)
    ensures
        r@ == error_heading(vstd::utf8::encode_utf8(text@), at as int),
{
    let mut r = "TOML parse error at ".to_string();
    r.append(locate(text, at).as_str());
    r
}

/// Where byte `at` of `text` stands.
pub fn locate(text: &str, at: usize) -> (r: String)
    ensures
        r@ == place_in(vstd::utf8::encode_utf8(text@), at as int),
{
    let bytes: &[u8] = text.as_bytes();
    let n: usize = bytes.len();
    let end: usize = if at < n { at } else { n };
    let mut line: u64 = 0;
    let mut col: u64 = 0;
    let mut i: usize = 0;
    assert(bytes@.take(0).len() == 0);
    while i < end
        invariant
            i <= end <= n,
            n == bytes@.len(),
            n <= u64::MAX,
            line <= i,
            col <= i,
            line == newlines(bytes@.take(i as int)),
            col == column(bytes@.take(i as int)),
        decreases end - i,
    {
        let b: u8 = bytes[i];
        proof {
            let next = bytes@.take(i + 1);
            assert(next.drop_last() =~= bytes@.take(i as int));
            assert(next.last() == b);
        }
        if b == 10 {
            line = line + 1;
            col = 0;
        } else if b < 128 || b >= 192 {
            col = col + 1;
        }
        i = i + 1;
    }
    let mut r = "line ".to_string();
    r.append(text::to_decimal(line as u128 + 1).as_str());
    r.append(", column ");
    r.append(text::to_decimal(col as u128 + 1).as_str());
    r
}

// ---------------------------------------------------------------------------
// What a document can be relied on for
// ---------------------------------------------------------------------------

/// Looking a key up finds the first value under it, whatever stands around it,
/// and finds nothing only where there is none.
pub proof fn law_a_key_finds_its_value<V>(entries: Seq<(String, V)>, key: Seq<char>, i: int)
    requires
        0 <= i <= entries.len(),
        forall|j: int| 0 <= j < i ==> (#[trigger] entries[j]).0@ != key,
    ensures
        i < entries.len() && entries[i].0@ == key ==> entry(entries, key) == Some(entries[i].1),
        i == entries.len() ==> entry(entries, key) is None,
    decreases i,
{
    if i > 0 {
        let rest = entries.drop_first();
        assert forall|j: int| 0 <= j < i - 1 implies (#[trigger] rest[j]).0@ != key by {
            assert(rest[j] == entries[j + 1]);
        }
        assert(entries[0].0@ != key);
        law_a_key_finds_its_value(rest, key, i - 1);
        if i < entries.len() {
            assert(rest[i - 1] == entries[i]);
        }
    }
}

/// A list or a table is at fault where one of its values is, and nowhere else; and
/// only a number can be at fault by itself.
pub proof fn law_a_fault_is_a_number_that_does_not_fit(node: Node)
    ensures
        match node.value {
            NodeValue::Array(items) => fault(node) is None <==> forall|i: int|
                0 <= i < items@.len() ==> fault(#[trigger] items@[i]) is None,
            NodeValue::Table(entries) => fault(node) is None <==> forall|i: int|
                0 <= i < entries@.len() ==> fault((#[trigger] entries@[i]).1) is None,
            NodeValue::Integer { digits, radix } => fault(node) == if number_fits(
                written_integer(digits@, radix),
            ) {
                None
            } else {
                Some(node.at)
            },
            NodeValue::Float(written) => fault(node) == if number_fits(written@) {
                None
            } else {
                Some(node.at)
            },
            _ => fault(node) is None,
        },
{
    match node.value {
        NodeValue::Array(items) => lemma_first_fault(items@, 0),
        NodeValue::Table(entries) => lemma_first_entry_fault(entries@, 0),
        _ => {},
    }
}

proof fn lemma_first_fault(items: Seq<Node>, i: int)
    requires
        0 <= i <= items.len(),
    ensures
        first_fault(items, i) is None <==> forall|j: int|
            i <= j < items.len() ==> fault(#[trigger] items[j]) is None,
    decreases items.len() - i,
{
    if i < items.len() {
        lemma_first_fault(items, i + 1);
        if first_fault(items, i) is None {
            assert(fault(items[i]) is None);
        }
    }
}

proof fn lemma_first_entry_fault(entries: Seq<(String, Node)>, i: int)
    requires
        0 <= i <= entries.len(),
    ensures
        first_entry_fault(entries, i) is None <==> forall|j: int|
            i <= j < entries.len() ==> fault((#[trigger] entries[j]).1) is None,
    decreases entries.len() - i,
{
    if i < entries.len() {
        lemma_first_entry_fault(entries, i + 1);
        if first_entry_fault(entries, i) is None {
            assert(fault(entries[i].1) is None);
        }
    }
}

/// A place is told by how many lines end before it and how many characters start
/// before it on its own line: behind `above`, which ends a line or is empty, and
/// `start`, which ends none.
pub proof fn law_a_place_counts_lines_and_characters(
    above: Seq<u8>,
    start: Seq<u8>,
    behind: Seq<u8>,
)
    requires
        above.len() == 0 || above.last() == 10,
        forall|i: int| 0 <= i < start.len() ==> #[trigger] start[i] != 10,
    ensures
        place_in(above + start + behind, (above + start).len() as int) == "line "@ + text::decimal(
            above.filter(|b: u8| b == 10).len() + 1,
        ) + ", column "@ + text::decimal(start.filter(|b: u8| !(128 <= b < 192)).len() + 1),
{
    let whole = above + start + behind;
    let before = above + start;
    let at = before.len() as int;
    assert(whole.take(if at < whole.len() { at } else { whole.len() as int }) =~= before);
    lemma_newlines(above);
    lemma_newlines_of_line(above, start);
    lemma_column(above, start);
}

proof fn lemma_newlines(bytes: Seq<u8>)
    ensures
        newlines(bytes) == bytes.filter(|b: u8| b == 10).len(),
    decreases bytes.len(),
{
    reveal(Seq::filter);
    if bytes.len() > 0 {
        lemma_newlines(bytes.drop_last());
    }
}

proof fn lemma_newlines_of_line(above: Seq<u8>, start: Seq<u8>)
    requires
        forall|i: int| 0 <= i < start.len() ==> #[trigger] start[i] != 10,
    ensures
        newlines(above + start) == newlines(above),
    decreases start.len(),
{
    if start.len() == 0 {
        assert(above + start =~= above);
    } else {
        lemma_newlines_of_line(above, start.drop_last());
        assert((above + start).drop_last() =~= above + start.drop_last());
        assert((above + start).last() == start[start.len() - 1]);
    }
}

proof fn lemma_column(above: Seq<u8>, start: Seq<u8>)
    requires
        above.len() == 0 || above.last() == 10,
        forall|i: int| 0 <= i < start.len() ==> #[trigger] start[i] != 10,
    ensures
        column(above + start) == start.filter(|b: u8| !(128 <= b < 192)).len(),
    decreases start.len(),
{
    reveal(Seq::filter);
    if start.len() == 0 {
        assert(above + start =~= above);
    } else {
        lemma_column(above, start.drop_last());
        assert((above + start).drop_last() =~= above + start.drop_last());
        assert((above + start).last() == start[start.len() - 1]);
    }
}

/// A number is written with the prefix of its base, and without one in decimal.
pub proof fn law_a_number_is_written_in_its_base(digits: Seq<char>)
    ensures
        written_integer(digits, 10) == digits,
        written_integer(digits, 16) == seq!['0', 'x'] + digits,
        written_integer(digits, 8) == seq!['0', 'o'] + digits,
        written_integer(digits, 2) == seq!['0', 'b'] + digits,
{
    reveal_strlit("");
    reveal_strlit("0x");
    reveal_strlit("0o");
    reveal_strlit("0b");
    assert(written_integer(digits, 10) =~= digits);
    assert("0x"@ =~= seq!['0', 'x']);
    assert("0o"@ =~= seq!['0', 'o']);
    assert("0b"@ =~= seq!['0', 'b']);
}

/// Only a table has members, and its members are the values under its keys.
pub proof fn law_only_a_table_has_members(item: Item, key: Seq<char>)
    ensures
        !(item is Table) ==> member(item, key) is None,
        item matches Item::Table { entries, .. } ==> member(item, key) == entry(entries@, key),
{
}

/// Where a list or a table holds several values at fault, the first of them is told.
pub proof fn law_the_first_fault_is_told(node: Node, i: int)
    ensures
        node.value matches NodeValue::Array(items) ==> (0 <= i < items@.len() && fault(items@[i])
            is Some && (forall|j: int| 0 <= j < i ==> fault(#[trigger] items@[j]) is None)
            ==> fault(node) == fault(items@[i])),
        node.value matches NodeValue::Table(entries) ==> (0 <= i < entries@.len() && fault(
            entries@[i].1,
        ) is Some && (forall|j: int| 0 <= j < i ==> fault((#[trigger] entries@[j]).1) is None)
            ==> fault(node) == fault(entries@[i].1)),
{
    match node.value {
        NodeValue::Array(items) => {
            if 0 <= i < items@.len() && fault(items@[i]) is Some && (forall|j: int|
                0 <= j < i ==> fault(#[trigger] items@[j]) is None) {
                lemma_first_fault_at(items@, 0, i);
            }
        },
        NodeValue::Table(entries) => {
            if 0 <= i < entries@.len() && fault(entries@[i].1) is Some && (forall|j: int|
                0 <= j < i ==> fault((#[trigger] entries@[j]).1) is None) {
                lemma_first_entry_fault_at(entries@, 0, i);
            }
        },
        _ => {},
    }
}

proof fn lemma_first_fault_at(items: Seq<Node>, from: int, i: int)
    requires
        0 <= from <= i < items.len(),
        fault(items[i]) is Some,
        forall|j: int| from <= j < i ==> fault(#[trigger] items[j]) is None,
    ensures
        first_fault(items, from) == fault(items[i]),
    decreases i - from,
{
    if from < i {
        assert(fault(items[from]) is None);
        lemma_first_fault_at(items, from + 1, i);
    }
}

proof fn lemma_first_entry_fault_at(entries: Seq<(String, Node)>, from: int, i: int)
    requires
        0 <= from <= i < entries.len(),
        fault(entries[i].1) is Some,
        forall|j: int| from <= j < i ==> fault((#[trigger] entries[j]).1) is None,
    ensures
        first_entry_fault(entries, from) == fault(entries[i].1),
    decreases i - from,
{
    if from < i {
        assert(fault(entries[from].1) is None);
        lemma_first_entry_fault_at(entries, from + 1, i);
    }
}

} // verus!
