//! The forward streaming scanner: a thin trusted layer over quick_xml's
//! event reader, driven over an in-memory byte slice.
//!
//! The reader itself is opaque, so a `Scanner` carries two ghost components:
//! the bytes it walks (`tape`) and how many events it has produced (`step`).
//! Over a byte slice the reader is deterministic, so the event stream and the
//! reported positions are functions of those two values alone; `scan_event`
//! and `scan_pos` name them, and every wrapper contract speaks through the
//! names. Everything that reacts to an event is ordinary verified code.

use vstd::prelude::*;
use quick_xml::events::Event;
use crate::matcher::{spec_attrs, spec_element_matches};
use crate::text::lossy_of;

verus! {

/// One event of the forward scan, with owned payloads: qualified tag name
/// and raw attribute pairs for element events.
pub enum ScanEvent {
    /// An opening tag `<name ...>`.
    Open { name: Vec<u8>, attrs: Vec<(Vec<u8>, Vec<u8>)> },
    /// A self-closing tag `<name ... />`.
    SelfClosed { name: Vec<u8>, attrs: Vec<(Vec<u8>, Vec<u8>)> },
    /// A closing tag `</name>`.
    Close { name: Vec<u8> },
    /// Text, comments, processing instructions and other non-element events.
    Other,
    /// End of input.
    Eof,
    /// The tokenizer rejected the input at the current position.
    Failed,
}

#[verifier::external_type_specification]
#[verifier::external_body]
#[verifier::reject_recursive_types(R)]
pub struct ExReader<R>(quick_xml::Reader<R>);

#[verifier::external_type_specification]
#[verifier::external_body]
pub struct ExBytesStart<'a>(quick_xml::events::BytesStart<'a>);

/// The event that the tokenizer yields on `tape` after `step` events came
/// before it. What an outside function returns from given bytes is not
/// restated here; the scan wrappers tie their results to this name.
pub uninterp spec fn scan_event(tape: Seq<u8>, step: int) -> ScanEvent;

/// The byte position the tokenizer reports on `tape` after `step` events.
/// Positions are approximate: an event's reported position may fall before
/// leading whitespace rather than exactly on the `<`; they are only ever
/// corrected by local byte inspection.
pub uninterp spec fn scan_pos(tape: Seq<u8>, step: int) -> int;

/// The ancestor-name stack after `n` events: an opening tag pushes its
/// name, a closing tag pops (any closing tag — the scan tolerates
/// mismatched end tags), every other event leaves the stack unchanged.
pub open spec fn stack_names(tape: Seq<u8>, n: int) -> Seq<Seq<u8>>
    decreases n,
{
    if n <= 0 {
        Seq::empty()
    } else {
        let prev = stack_names(tape, n - 1);
        match scan_event(tape, n - 1) {
            ScanEvent::Open { name, .. } => prev.push(name@),
            ScanEvent::Close { .. } => if prev.len() > 0 {
                prev.drop_last()
            } else {
                prev
            },
            _ => prev,
        }
    }
}

/// Whether event `i` is an element event (opening or self-closing tag) that
/// matches query `q` under selector `t`.
pub open spec fn spec_match_at(tape: Seq<u8>, q: Seq<u8>, t: Seq<u8>, i: int) -> bool {
    match scan_event(tape, i) {
        ScanEvent::Open { name, attrs } => spec_element_matches(name@, spec_attrs(attrs@), q, t),
        ScanEvent::SelfClosed { name, attrs } => spec_element_matches(
            name@,
            spec_attrs(attrs@),
            q,
            t,
        ),
        _ => false,
    }
}

/// The ancestor stack with positions after `n` events: like `stack_names`,
/// but each opening tag also records the byte position reported before it
/// was read.
pub open spec fn stack_entries(tape: Seq<u8>, n: int) -> Seq<(Seq<u8>, int)>
    decreases n,
{
    if n <= 0 {
        Seq::empty()
    } else {
        let prev = stack_entries(tape, n - 1);
        match scan_event(tape, n - 1) {
            ScanEvent::Open { name, .. } => prev.push((name@, scan_pos(tape, n - 1))),
            ScanEvent::Close { .. } => if prev.len() > 0 {
                prev.drop_last()
            } else {
                prev
            },
            _ => prev,
        }
    }
}

/// The bottom of the ancestor stack is always a top-level element: whatever
/// the scan has done, the entry at depth zero was pushed by an opening tag
/// read while nothing was open, and still carries that event's name and
/// reported position. This is why an ancestor lookup at depth zero answers
/// the document root's element.
pub proof fn lemma_depth_zero_is_top_level(tape: Seq<u8>, n: int)
    requires
        stack_entries(tape, n).len() > 0,
    ensures
        exists|j: int|
            {
                &&& 0 <= j < n
                &&& #[trigger] scan_event(tape, j) matches ScanEvent::Open { .. }
                &&& stack_entries(tape, j).len() == 0
                &&& stack_entries(tape, n)[0] == (
                    spec_event_name(scan_event(tape, j)),
                    scan_pos(tape, j),
                )
            },
    decreases n,
{
    let prev = stack_entries(tape, n - 1);
    match scan_event(tape, n - 1) {
        ScanEvent::Open { name, .. } => {
            if prev.len() == 0 {
                assert(stack_entries(tape, n)[0] == (
                    spec_event_name(scan_event(tape, n - 1)),
                    scan_pos(tape, n - 1),
                ));
            } else {
                lemma_depth_zero_is_top_level(tape, n - 1);
            }
        },
        ScanEvent::Close { .. } => {
            lemma_depth_zero_is_top_level(tape, n - 1);
        },
        _ => {
            lemma_depth_zero_is_top_level(tape, n - 1);
        },
    }
}

/// A recorded ancestor position is a position the scan reported at some
/// earlier step: the stack only ever stores what `scan_pos` gave.
pub proof fn lemma_entry_position(tape: Seq<u8>, n: int, k: int)
    requires
        0 <= k < stack_entries(tape, n).len(),
    ensures
        exists|j: int|
            0 <= j < n && stack_entries(tape, n)[k].1 == #[trigger] scan_pos(tape, j),
    decreases n,
{
    let prev = stack_entries(tape, n - 1);
    match scan_event(tape, n - 1) {
        ScanEvent::Open { .. } => {
            if k < prev.len() {
                assert(stack_entries(tape, n)[k] == stack_entries(tape, n - 1)[k]);
                lemma_entry_position(tape, n - 1, k);
            } else {
                assert(stack_entries(tape, n)[k].1 == scan_pos(tape, n - 1));
            }
        },
        ScanEvent::Close { .. } => {
            assert(stack_entries(tape, n)[k] == stack_entries(tape, n - 1)[k]);
            lemma_entry_position(tape, n - 1, k);
        },
        _ => {
            assert(stack_entries(tape, n)[k] == stack_entries(tape, n - 1)[k]);
            lemma_entry_position(tape, n - 1, k);
        },
    }
}

/// The tag name an element event carries; empty for non-element events.
pub open spec fn spec_event_name(ev: ScanEvent) -> Seq<u8> {
    match ev {
        ScanEvent::Open { name, .. } => name@,
        ScanEvent::SelfClosed { name, .. } => name@,
        ScanEvent::Close { name } => name@,
        _ => Seq::empty(),
    }
}

/// Whether event `i` is an element event: an opening or self-closing tag.
pub open spec fn spec_is_element(tape: Seq<u8>, i: int) -> bool {
    match scan_event(tape, i) {
        ScanEvent::Open { .. } => true,
        ScanEvent::SelfClosed { .. } => true,
        _ => false,
    }
}

/// The ancestor stack at element event `i`, including the element itself.
pub open spec fn spec_match_stack(tape: Seq<u8>, i: int) -> Seq<Seq<u8>> {
    match scan_event(tape, i) {
        ScanEvent::Open { name, .. } => stack_names(tape, i).push(name@),
        ScanEvent::SelfClosed { name, .. } => stack_names(tape, i).push(name@),
        _ => stack_names(tape, i),
    }
}

/// The slash-joined path of a name stack, each name lossily decoded:
/// `/a/b` for the stack `[a, b]`, empty for the empty stack.
pub open spec fn spec_xpath(names: Seq<Seq<u8>>) -> Seq<char>
    decreases names.len(),
{
    if names.len() == 0 {
        Seq::empty()
    } else {
        spec_xpath(names.drop_last()) + seq!['/'] + lossy_of(names.last())
    }
}

/// A forward scan in progress over a byte slice. The fields are private:
/// only `scanner_new` builds one, so the ghost model always describes the
/// reader it travels with.
pub struct Scanner<'a> {
    reader: quick_xml::Reader<&'a [u8]>,
    tape: Ghost<Seq<u8>>,
    step: Ghost<int>,
}

impl<'a> Scanner<'a> {
    /// The bytes this scan walks.
    pub closed spec fn tape(self) -> Seq<u8> {
        self.tape@
    }

    /// Events produced so far.
    pub closed spec fn step(self) -> int {
        self.step@
    }
}

/// Relies on `quick_xml::Reader::from_reader` over an in-memory byte slice.
/// End-tag name checking is relaxed: mismatched closing tags are tolerated,
/// the scan never aborts on them.
#[verifier::external_body]
fn reader_new<'a>(doc: &'a [u8]) -> quick_xml::Reader<&'a [u8]> {
    let mut reader = quick_xml::Reader::from_reader(doc);
    reader.check_end_names(false);
    reader
}

/// Starts a forward scan at the beginning of `doc`.
pub fn scanner_new<'a>(doc: &'a [u8]) -> (s: Scanner<'a>)
    ensures
        s.tape() == doc@,
        s.step() == 0,
{
    Scanner { reader: reader_new(doc), tape: Ghost(doc@), step: Ghost(0) }
}

/// Relies on `quick_xml::Reader::buffer_position`: the bytes consumed so far,
/// which never exceed the length of the underlying slice.
#[verifier::external_body]
pub fn scanner_position(s: &Scanner) -> (p: usize)
    ensures
        p as int == scan_pos(s.tape(), s.step()),
        p as int <= s.tape().len() as int,
{
    s.reader.buffer_position()
}

/// Relies on `quick_xml::Reader::read_event_into`. Element events carry the
/// qualified name and the raw attribute pairs; attribute entries that the
/// tokenizer itself rejects are left out, as the scan tolerates malformed
/// input. Tokenizer errors come back as `ScanEvent::Failed`, never a panic.
#[verifier::external_body]
pub fn scanner_next(s: &mut Scanner, buf: &mut Vec<u8>) -> (ev: ScanEvent)
    ensures
        final(s).tape() == old(s).tape(),
        final(s).step() == old(s).step() + 1,
        ev == scan_event(old(s).tape(), old(s).step()),
{
    buf.clear();
    let (closed, e) = match s.reader.read_event_into(buf) {
        Ok(Event::Start(e)) => (false, e),
        Ok(Event::Empty(e)) => (true, e),
        Ok(Event::End(e)) => return ScanEvent::Close { name: e.name().as_ref().to_vec() },
        Ok(Event::Eof) => return ScanEvent::Eof,
        Ok(_) => return ScanEvent::Other,
        Err(_) => return ScanEvent::Failed,
    };
    let (name, attrs) = start_payload(&e);
    if closed {
        ScanEvent::SelfClosed { name, attrs }
    } else {
        ScanEvent::Open { name, attrs }
    }
}

/// Relies on `BytesStart::name` and `BytesStart::attributes`: the qualified
/// name bytes of an element tag and its raw attribute pairs, in order;
/// attribute entries the tokenizer rejects are left out. What the pair
/// means for the scan is stated on `scanner_next` alone.
#[verifier::external_body]
fn start_payload(e: &quick_xml::events::BytesStart<'_>) -> (Vec<u8>, Vec<(Vec<u8>, Vec<u8>)>) {
    let name = e.name().as_ref().to_vec();
    let attrs = e.attributes().flatten().map(|a| (a.key.as_ref().to_vec(), a.value.to_vec())).collect();
    (name, attrs)
}

} // verus!
