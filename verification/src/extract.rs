//! Taking the plain text out of a packaged XML word-processing document: the
//! document is an archive, its body is one XML part of it, and the text is
//! what the body's text nodes hold, one after the other.

use vstd::prelude::*;
use vstd::string::StringExecFns;

verus! {

/// The name of the part that holds a packaged document's body.
pub const DOCUMENT_PART: &'static str = "word/document.xml";

/// What stands before the reason where the archive cannot be opened.
pub const OPEN_FAILED: &'static str = "Failed to open DOCX zip: ";

/// What stands before the reason where the archive has no body part.
pub const FIND_FAILED: &'static str = "Failed to find word/document.xml: ";

/// What stands before the reason where the body part cannot be read as text.
pub const READ_FAILED: &'static str = "Failed to read document.xml: ";

/// Why a part could not be had from an archive, with the archive reader's own
/// words.
#[derive(Clone, Debug, PartialEq, Eq)]
pub enum PartFailure {
    /// The bytes are no archive that can be opened.
    Open(String),
    /// The archive holds no part of that name that can be handed out.
    Find(String),
    /// The part is not text.
    Read(String),
}

pub enum PartFailureView {
    Open(Seq<char>),
    Find(Seq<char>),
    Read(Seq<char>),
}

impl View for PartFailure {
    type V = PartFailureView;

    open spec fn view(&self) -> PartFailureView {
        match *self {
            PartFailure::Open(reason) => PartFailureView::Open(reason@),
            PartFailure::Find(reason) => PartFailureView::Find(reason@),
            PartFailure::Read(reason) => PartFailureView::Read(reason@),
        }
    }
}

/// One step of reading an XML document.
#[derive(Clone, Debug, PartialEq, Eq)]
pub enum XmlEvent {
    /// A text node, with its content unescaped; `None` where the content
    /// cannot be unescaped.
    Text(Option<String>),
    /// Markup of any kind.
    Other,
    /// The end of the document.
    Eof,
    /// The document is malformed from here on.
    Failed,
}

pub enum XmlEventView {
    Text(Option<Seq<char>>),
    Other,
    Eof,
    Failed,
}

impl View for XmlEvent {
    type V = XmlEventView;

    open spec fn view(&self) -> XmlEventView {
        match *self {
            XmlEvent::Text(Some(content)) => XmlEventView::Text(Some(content@)),
            XmlEvent::Text(None) => XmlEventView::Text(None),
            XmlEvent::Other => XmlEventView::Other,
            XmlEvent::Eof => XmlEventView::Eof,
            XmlEvent::Failed => XmlEventView::Failed,
        }
    }
}

/// What a part of an archive came to, by its characters.
pub open spec fn part_view(part: Result<String, PartFailure>) -> Result<
    Seq<char>,
    PartFailureView,
> {
    match part {
        Ok(text) => Ok(text@),
        Err(failure) => Err(failure@),
    }
}

/// What each of `events` stands for.
pub open spec fn event_views(events: Seq<XmlEvent>) -> Seq<XmlEventView> {
    events.map_values(|event: XmlEvent| event@)
}

#[verifier::external_type_specification]
#[verifier::external_body]
#[verifier::reject_recursive_types(R)]
pub struct ExXmlReader<R>(quick_xml::Reader<R>);

/// What reading the part `name` of the archive `bytes` as text comes to: the
/// result of `zip::ZipArchive::new`, `by_name_decrypt` with an empty password
/// and `read_to_string`, one after the other.
pub uninterp spec fn archive_part(bytes: Seq<u8>, name: Seq<char>) -> Result<
    Seq<char>,
    PartFailureView,
>;

/// The events that a `quick_xml::Reader` yields for a document, up to its end
/// or to the first place where it is malformed. The reader is left as
/// `Reader::from_str` makes it, so a text node comes with all of its white
/// space.
pub uninterp spec fn xml_events(document: Seq<char>) -> Seq<XmlEventView>;

/// The events that a reader has yet to yield before its document ends or
/// proves malformed.
pub uninterp spec fn pending_events(reader: &quick_xml::Reader<&[u8]>) -> Seq<XmlEventView>;

/// Opens `bytes` with `zip::ZipArchive::new`, asks for the part with
/// `by_name_decrypt` and an empty password, which no part needs that is not
/// encrypted, and reads it whole with `read_to_string`. Each failure carries
/// the words of the error that the step gave. Nothing of this is proved; the
/// contract claims only that the outcome is a function of the bytes and the
/// name.
#[verifier::external_body]
fn read_part(bytes: &[u8], name: &str) -> (part: Result<String, PartFailure>)
    ensures
        part_view(part) == archive_part(bytes@, name@),
{
    let mut archive = match zip::ZipArchive::new(std::io::Cursor::new(bytes)) {
        Ok(archive) => archive,
        Err(error) => return Err(PartFailure::Open(error.to_string())),
    };
    let mut file = match archive.by_name_decrypt(name, &[]) {
        Ok(Ok(file)) => file,
        Ok(Err(error)) => return Err(PartFailure::Find(error.to_string())),
        Err(error) => return Err(PartFailure::Find(error.to_string())),
    };
    let mut text = String::new();
    match std::io::Read::read_to_string(&mut file, &mut text) {
        Ok(_) => Ok(text),
        Err(error) => Err(PartFailure::Read(error.to_string())),
    }
}

/// `quick_xml::Reader::from_str`: a reader at the start of `document`, with
/// the settings that the function gives it. The contract claims, without
/// proof, that what the reader will yield is a function of the document.
#[verifier::external_body]
fn reader_of<'a>(document: &'a str) -> (reader: quick_xml::Reader<&'a [u8]>)
    ensures
        pending_events(&reader) == xml_events(document@),
{
    quick_xml::Reader::from_str(document)
}

/// `quick_xml::Reader::read_event`, and `BytesText::unescape` on a text
/// node. Not proved, but taken from the reader's source: every event before
/// the end consumes input, so only finitely many are pending; the reader
/// yields them in order; and it reports the end or a malformed document only
/// when none is pending.
#[verifier::external_body]
fn next_event(reader: &mut quick_xml::Reader<&[u8]>) -> (event: XmlEvent)
    ensures
        match event@ {
            XmlEventView::Eof | XmlEventView::Failed => pending_events(old(reader)).len() == 0,
            live => pending_events(old(reader)).len() > 0 && pending_events(old(reader))[0] == live
                && pending_events(final(reader)) == pending_events(old(reader)).drop_first(),
        },
{
    match reader.read_event() {
        Ok(quick_xml::events::Event::Text(text)) => XmlEvent::Text(
            text.unescape().ok().map(|content| content.into_owned()),
        ),
        Ok(quick_xml::events::Event::Eof) => XmlEvent::Eof,
        Ok(_) => XmlEvent::Other,
        Err(_) => XmlEvent::Failed,
    }
}

/// What one event adds to a document's text: the content of a text node that
/// could be unescaped, else nothing.
pub open spec fn piece_of(event: XmlEventView) -> Seq<char> {
    match event {
        XmlEventView::Text(Some(content)) => content,
        _ => Seq::empty(),
    }
}

/// Whether an event ends the reading.
pub open spec fn ends_reading(event: XmlEventView) -> bool {
    event is Eof || event is Failed
}

/// The text of a run of events: the contents of its text nodes put together
/// in order, with nothing between them.
pub open spec fn text_of(events: Seq<XmlEventView>) -> Seq<char>
    decreases events.len(),
{
    if events.len() == 0 {
        Seq::empty()
    } else {
        piece_of(events[0]) + text_of(events.drop_first())
    }
}

/// The events of a run that stand before the first one that ends the
/// reading.
pub open spec fn events_read(events: Seq<XmlEventView>) -> Seq<XmlEventView>
    decreases events.len(),
{
    if events.len() == 0 || ends_reading(events[0]) {
        Seq::empty()
    } else {
        seq![events[0]] + events_read(events.drop_first())
    }
}

/// The message that reports why a packaged document's body could not be had.
pub open spec fn failure_message(failure: PartFailureView) -> Seq<char> {
    match failure {
        PartFailureView::Open(reason) => OPEN_FAILED@ + reason,
        PartFailureView::Find(reason) => FIND_FAILED@ + reason,
        PartFailureView::Read(reason) => READ_FAILED@ + reason,
    }
}

/// The text of a packaged document, given what reading its body part came
/// to: the text of the body's events, or the message for the failure.
pub open spec fn text_of_part(part: Result<Seq<char>, PartFailureView>) -> Result<
    Seq<char>,
    Seq<char>,
> {
    match part {
        Ok(document) => Ok(text_of(xml_events(document))),
        Err(failure) => Err(failure_message(failure)),
    }
}

/// What an extraction came to, by its characters.
pub open spec fn outcome_view(outcome: Result<String, String>) -> Result<Seq<char>, Seq<char>> {
    match outcome {
        Ok(text) => Ok(text@),
        Err(message) => Err(message@),
    }
}

/// Puts what `event` adds behind `text`, and says whether the reading goes
/// on: it stops at the end of the document and where the document is
/// malformed.
pub fn absorb(text: &mut String, event: &XmlEvent) -> (goes_on: bool)
    ensures
        final(text)@ == old(text)@ + piece_of(event@),
        goes_on == !ends_reading(event@),
{
    match event {
        XmlEvent::Text(Some(content)) => {
            text.append(content.as_str());
            true
        },
        XmlEvent::Text(None) => {
            assert(text@ + Seq::<char>::empty() =~= text@);
            true
        },
        XmlEvent::Other => {
            assert(text@ + Seq::<char>::empty() =~= text@);
            true
        },
        XmlEvent::Eof => {
            assert(text@ + Seq::<char>::empty() =~= text@);
            false
        },
        XmlEvent::Failed => {
            assert(text@ + Seq::<char>::empty() =~= text@);
            false
        },
    }
}

/// The text of a run of events that were read already: the contents of the
/// text nodes up to the first event that ends the reading.
pub fn text_of_events(events: &Vec<XmlEvent>) -> (text: String)
    ensures
        text@ == text_of(events_read(event_views(events@))),
{
    let ghost all = event_views(events@);
    let mut text = String::new();
    let mut i: usize = 0;
    let n = events.len();
    proof {
        assert(all.take(0) =~= Seq::<XmlEventView>::empty());
    }
    while i < n
        invariant
            n == events@.len(),
            i <= n,
            all == event_views(events@),
            text@ == text_of(all.take(i as int)),
            forall|k: int| 0 <= k < i ==> !ends_reading(#[trigger] all[k]),
        decreases n - i,
    {
        let ghost before = text@;
        let goes_on = absorb(&mut text, &events[i]);
        if !goes_on {
            proof {
                assert(before + Seq::<char>::empty() =~= before);
                lemma_events_read(all, i as int);
            }
            return text;
        }
        proof {
            lemma_text_of_push(all.take(i as int), all[i as int]);
            assert(all.take(i + 1) =~= all.take(i as int).push(all[i as int]));
        }
        i = i + 1;
    }
    proof {
        lemma_events_read(all, n as int);
    }
    text
}

/// Where the first event of a run that ends the reading stands at `n`, or
/// none does and the run has `n` events, the events read are the first `n`.
pub proof fn lemma_events_read(events: Seq<XmlEventView>, n: int)
    requires
        0 <= n <= events.len(),
        forall|k: int| 0 <= k < n ==> !ends_reading(#[trigger] events[k]),
        n < events.len() ==> ends_reading(events[n]),
    ensures
        events_read(events) == events.take(n),
    decreases n,
{
    if n == 0 {
        assert(events.take(0) =~= Seq::<XmlEventView>::empty());
    } else {
        let rest = events.drop_first();
        assert(!ends_reading(events[0]));
        assert forall|k: int| 0 <= k < n - 1 implies !ends_reading(#[trigger] rest[k]) by {
            assert(rest[k] == events[k + 1]);
        }
        lemma_events_read(rest, n - 1);
        assert(seq![events[0]] + rest.take(n - 1) =~= events.take(n));
    }
}

/// One more event at the end of a run adds its piece at the end of the text.
pub proof fn lemma_text_of_push(events: Seq<XmlEventView>, event: XmlEventView)
    ensures
        text_of(events.push(event)) == text_of(events) + piece_of(event),
    decreases events.len(),
{
    if events.len() == 0 {
        let none = Seq::<XmlEventView>::empty();
        assert(events.push(event).drop_first() =~= none);
        assert(events.push(event)[0] == event);
        assert(text_of(none) =~= Seq::<char>::empty());
        assert(text_of(events) =~= Seq::<char>::empty());
        assert(piece_of(event) + text_of(none) =~= text_of(events) + piece_of(event));
    } else {
        lemma_text_of_push(events.drop_first(), event);
        assert(events.push(event).drop_first() =~= events.drop_first().push(event));
        assert(events.push(event)[0] == events[0]);
        assert(piece_of(events[0]) + (text_of(events.drop_first()) + piece_of(event)) =~= (
        piece_of(events[0]) + text_of(events.drop_first())) + piece_of(event));
    }
}

/// The text of an XML document: what its text nodes hold, unescaped and put
/// together in document order, with the markup left out and nothing put in
/// between. Every text node counts in full: white space is kept as it
/// stands, at the ends of a node and where a node holds nothing else.
/// Reading stops where the document ends or proves malformed; what was read
/// up to there is the text.
pub fn xml_text(document: &str) -> (text: String)
    ensures
        text@ == text_of(xml_events(document@)),
{
    let mut reader = reader_of(document);
    let mut text = String::new();
    let mut reading = true;
    proof {
        assert(text@ + text_of(pending_events(&reader)) =~= text_of(xml_events(document@)));
    }
    while reading
        invariant
            reading ==> text@ + text_of(pending_events(&reader)) == text_of(
                xml_events(document@),
            ),
            !reading ==> text@ == text_of(xml_events(document@)),
        decreases
                if reading {
                    pending_events(&reader).len() + 1
                } else {
                    0
                },
    {
        let ghost pending = pending_events(&reader);
        let ghost before = text@;
        let event = next_event(&mut reader);
        reading = absorb(&mut text, &event);
        proof {
            if reading {
                assert(before + piece_of(event@) + text_of(pending.drop_first()) =~= before + (
                piece_of(pending[0]) + text_of(pending.drop_first())));
            } else {
                assert(before + piece_of(event@) =~= before);
                assert(before + Seq::<char>::empty() =~= before);
            }
        }
    }
    text
}

/// The message for a failure to get a packaged document's body.
pub fn part_failure_message(failure: &PartFailure) -> (message: String)
    ensures
        message@ == failure_message(failure@),
{
    match failure {
        PartFailure::Open(reason) => {
            let mut message = OPEN_FAILED.to_owned();
            message.append(reason.as_str());
            message
        },
        PartFailure::Find(reason) => {
            let mut message = FIND_FAILED.to_owned();
            message.append(reason.as_str());
            message
        },
        PartFailure::Read(reason) => {
            let mut message = READ_FAILED.to_owned();
            message.append(reason.as_str());
            message
        },
    }
}

/// The text of a packaged document, given what reading its body part came
/// to.
pub fn text_from_part(part: Result<String, PartFailure>) -> (out: Result<String, String>)
    ensures
        outcome_view(out) == text_of_part(part_view(part)),
{
    match part {
        Ok(document) => Ok(xml_text(document.as_str())),
        Err(failure) => Err(part_failure_message(&failure)),
    }
}

/// The plain text of a packaged XML word-processing document, from the bytes
/// of the package: the package is opened as an archive, its body part is
/// read, and the text of the body's text nodes is put together in document
/// order, each node in full with its white space and nothing between two of
/// them. Where the archive cannot be opened, has no body part or the part
/// is not text, the message says which and why.
pub fn get_docx_text(bytes: &[u8]) -> (out: Result<String, String>)
    ensures
        outcome_view(out) == text_of_part(archive_part(bytes@, DOCUMENT_PART@)),
{
    text_from_part(read_part(bytes, DOCUMENT_PART))
}

} // verus!
