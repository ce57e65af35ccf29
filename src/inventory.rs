//! Reading the installed version out of an inventory document.
use vstd::prelude::*;
use vstd::string::{StrSliceExecFns, StringSliceAdditionalSpecFns};

use crate::error::ReconcileError;

verus! {

/// One event of an XML tokenizer, reduced to what the extraction reads.
#[derive(Debug, PartialEq, Eq)]
pub enum XmlEvent {
    /// An element opened, with its local name.
    ElementStart(String),
    /// A run of character data.
    Characters(String),
    /// Any other event: an end tag, a comment, CDATA, a processing instruction.
    Other,
}

/// The mathematical value of an [`XmlEvent`].
pub enum XmlEventView {
    ElementStart(Seq<char>),
    Characters(Seq<char>),
    Other,
}

impl View for XmlEvent {
    type V = XmlEventView;

    open spec fn view(&self) -> XmlEventView {
        match self {
            XmlEvent::ElementStart(name) => XmlEventView::ElementStart(name@),
            XmlEvent::Characters(text) => XmlEventView::Characters(text@),
            XmlEvent::Other => XmlEventView::Other,
        }
    }
}

pub open spec fn event_views(evs: Seq<XmlEvent>) -> Seq<XmlEventView> {
    evs.map_values(|e: XmlEvent| e@)
}

/// The event sequence that the XML tokenizer yields for a document, or
/// `None` where the tokenizer reports an error. It does not report every
/// malformed document: one that ends early, or whose end tags do not match
/// its start tags, still gives events.
pub uninterp spec fn xml_events_of(doc: Seq<char>) -> Option<Seq<XmlEventView>>;

/// A run of 256 `]` bytes starts at byte `i`.
pub open spec fn bracket_run_at(bytes: Seq<u8>, i: int) -> bool {
    0 <= i && i + 256 <= bytes.len() && forall|k: int| i <= k < i + 256 ==> bytes[k] == 0x5du8
}

/// The tokenizer keeps the length of a run of `]` in a `u8`, and its line
/// and column in `u32`s: a document it can take holds no run of 256 `]` and
/// is shorter than `u32::MAX` bytes. (A `]` is the byte `0x5d` in UTF-8, and
/// no other character holds that byte.)
pub open spec fn within_tokenizer_limits(bytes: Seq<u8>) -> bool {
    bytes.len() < 0xffff_ffff && !exists|i: int| bracket_run_at(bytes, i)
}

/// Whether the tokenizer can take a document.
pub fn fits_tokenizer(doc: &str) -> (r: bool)
    ensures
        r == within_tokenizer_limits(doc.spec_bytes()),
{
    let bytes = doc.as_bytes();
    if bytes.len() >= 0xffff_ffff {
        return false;
    }
    let ghost b = bytes@;
    let mut run: usize = 0;
    let mut i: usize = 0;
    while i < bytes.len()
        invariant
            b == bytes@,
            b == doc.spec_bytes(),
            0 <= run <= i <= b.len(),
            run < 256,
            forall|k: int| i - run <= k < i ==> b[k] == 0x5du8,
            run < i ==> b[i - run - 1] != 0x5du8,
            forall|j: int| 0 <= j && j + 256 <= i ==> !bracket_run_at(b, j),
        decreases bytes.len() - i,
    {
        if bytes[i] == 0x5du8 {
            if run == 255 {
                proof {
                    assert(bracket_run_at(b, i - 255));
                }
                return false;
            }
            proof {
                assert forall|j: int| 0 <= j && j + 256 <= i + 1 implies !bracket_run_at(b, j) by {
                    if j + 256 == i + 1 {
                        let k = i - run - 1;
                        assert(j <= k < j + 256 && b[k] != 0x5du8);
                    }
                }
            }
            run = run + 1;
        } else {
            proof {
                assert forall|j: int| 0 <= j && j + 256 <= i + 1 implies !bracket_run_at(b, j) by {
                    if j + 256 == i + 1 {
                        assert(b[i as int] != 0x5du8);
                    }
                }
            }
            run = 0;
        }
        i = i + 1;
    }
    true
}

/// Relies on `xml::Parser` (`Parser::new`, `feed_str` and its `Iterator`
/// impl): it tokenizes the fed text, yields its events in document order,
/// and stops after the first error. The result depends on the text alone.
/// Within the limits required here its counters do not overflow.
#[verifier::external_body]
fn tokenize_xml(doc: &str) -> (r: Option<Vec<XmlEvent>>)
    requires
        within_tokenizer_limits(doc.spec_bytes()),
    ensures
        match r {
            Some(v) => xml_events_of(doc@) == Some(event_views(v@)),
            None => xml_events_of(doc@) is None,
        },
{
    let mut parser = xml::Parser::new();
    parser.feed_str(doc);
    let events: Result<Vec<XmlEvent>, xml::ParserError> = parser.map(|e| e.map(|ev| match ev {
        xml::Event::ElementStart(tag) => XmlEvent::ElementStart(tag.name),
        xml::Event::Characters(text) => XmlEvent::Characters(text),
        xml::Event::ElementEnd(_) => XmlEvent::Other,
        xml::Event::PI(_) => XmlEvent::Other,
        xml::Event::CDATA(_) => XmlEvent::Other,
        xml::Event::Comment(_) => XmlEvent::Other,
    })).collect();
    events.ok()
}

/// The name of the element whose text holds the installed version.
pub open spec fn version_tag() -> Seq<char> {
    "SAVED_WITH"@
}

/// After reading `evs` in order: whether the next character data is to be
/// captured, and the last non-empty block captured so far.
///
/// A `SAVED_WITH` start arms the capture; the next character data, empty or
/// not, disarms it; other events leave it as it is.
pub open spec fn capture_state(evs: Seq<XmlEventView>) -> (bool, Option<Seq<char>>)
    decreases evs.len(),
{
    if evs.len() == 0 {
        (false, None)
    } else {
        let (armed, last) = capture_state(evs.drop_last());
        match evs.last() {
            XmlEventView::ElementStart(name) => (armed || name == version_tag(), last),
            XmlEventView::Characters(text) => {
                if armed {
                    (false, if text.len() > 0 { Some(text) } else { last })
                } else {
                    (false, last)
                }
            },
            XmlEventView::Other => (armed, last),
        }
    }
}

/// The installed version that an event sequence carries, if any.
pub open spec fn extracted_version(evs: Seq<XmlEventView>) -> Option<Seq<char>> {
    capture_state(evs).1
}

proof fn lemma_capture_kept(s: Seq<XmlEventView>, post: Seq<XmlEventView>, t: Seq<char>)
    requires
        capture_state(s) == (false, Some(t)),
        forall|k: int| 0 <= k < post.len() ==> post[k] != XmlEventView::ElementStart(version_tag()),
    ensures
        capture_state(s + post) == (false, Some(t)),
    decreases post.len(),
{
    if post.len() > 0 {
        assert((s + post).drop_last() =~= s + post.drop_last());
        lemma_capture_kept(s, post.drop_last(), t);
        assert((s + post).last() == post.last());
    } else {
        assert(s + post =~= s);
    }
}

/// Non-empty text right after a `SAVED_WITH` start is the extracted version,
/// whatever comes before it, as long as no later `SAVED_WITH` start follows.
pub proof fn lemma_text_after_last_saved_with(
    pre: Seq<XmlEventView>,
    t: Seq<char>,
    post: Seq<XmlEventView>,
)
    requires
        t.len() > 0,
        forall|k: int| 0 <= k < post.len() ==> post[k] != XmlEventView::ElementStart(version_tag()),
    ensures
        extracted_version(
            pre + seq![XmlEventView::ElementStart(version_tag()), XmlEventView::Characters(t)]
                + post,
        ) == Some(t),
{
    let s1 = pre.push(XmlEventView::ElementStart(version_tag()));
    let s2 = s1.push(XmlEventView::Characters(t));
    assert(s1.drop_last() =~= pre);
    assert(s2.drop_last() =~= s1);
    assert(s1.last() == XmlEventView::ElementStart(version_tag()));
    assert(capture_state(s1).0);
    assert(s2.last() == XmlEventView::Characters(t));
    assert(capture_state(s2) == (false, Some(t)));
    assert(pre + seq![XmlEventView::ElementStart(version_tag()), XmlEventView::Characters(t)]
        =~= s2);
    lemma_capture_kept(s2, post, t);
}

/// The last non-empty character data that directly follows a `SAVED_WITH`
/// start, or `None` where there is none.
pub fn extract_version(events: &Vec<XmlEvent>) -> (r: Option<String>)
    ensures
        match r {
            Some(v) => extracted_version(event_views(events@)) == Some(v@),
            None => extracted_version(event_views(events@)) is None,
        },
{
    let tag = String::from_str("SAVED_WITH");
    proof {
        reveal_strlit("SAVED_WITH");
    }
    let ghost all = event_views(events@);
    let mut armed = false;
    let mut last: Option<String> = None;
    let mut i: usize = 0;
    while i < events.len()
        invariant
            all == event_views(events@),
            tag@ == version_tag(),
            0 <= i <= events@.len(),
            capture_state(all.take(i as int)) == (armed, match last {
                Some(s) => Some(s@),
                None => None::<Seq<char>>,
            }),
        decreases events.len() - i,
    {
        proof {
            assert(all.take(i + 1).drop_last() =~= all.take(i as int));
            assert(all.take(i + 1).last() == events@[i as int]@);
        }
        match &events[i] {
            XmlEvent::ElementStart(name) => {
                if *name == tag {
                    armed = true;
                }
            },
            XmlEvent::Characters(text) => {
                if armed && text.unicode_len() > 0 {
                    last = Some(text.clone());
                }
                armed = false;
            },
            XmlEvent::Other => {},
        }
        i = i + 1;
    }
    proof {
        assert(all.take(events@.len() as int) =~= all);
    }
    last
}

/// The installed version recorded in an inventory document. A document
/// beyond the tokenizer's limits (see [`within_tokenizer_limits`]) is
/// refused as a parse error.
pub fn parse_version(inventory: &str) -> (r: Result<String, ReconcileError>)
    ensures
        !within_tokenizer_limits(inventory.spec_bytes()) ==> r matches Err(ReconcileError::XmlParse),
        within_tokenizer_limits(inventory.spec_bytes()) ==> match xml_events_of(inventory@) {
            None => r matches Err(ReconcileError::XmlParse),
            Some(evs) => match extracted_version(evs) {
                None => r matches Err(ReconcileError::VersionNotFound),
                Some(v) => r matches Ok(s) && s@ == v,
            },
        },
{
    if !fits_tokenizer(inventory) {
        return Err(ReconcileError::XmlParse);
    }
    match tokenize_xml(inventory) {
        None => Err(ReconcileError::XmlParse),
        Some(events) => match extract_version(&events) {
            None => Err(ReconcileError::VersionNotFound),
            Some(v) => Ok(v),
        },
    }
}

} // verus!
