//! Structural events of a Markdown document and their resumable rendering to
//! CommonMark text.
use pulldown_cmark::Event as CmEvent;
use pulldown_cmark::Event::{End, Start, Text};
use pulldown_cmark::{HeadingLevel::H1, LinkType::Inline, Tag, TagEnd};
use vstd::prelude::*;

verus! {

/// One structural instruction for the renderer.
pub enum MdEvent {
    /// Opens a heading of the given level (1 to 6).
    HeadingStart(u8),
    HeadingEnd,
    /// Opens an ordered list whose first item carries the given number.
    ListStart(u64),
    ListEnd,
    ItemStart,
    ItemEnd,
    /// Opens an inline link with the given target and title.
    LinkStart(String, String),
    LinkEnd,
    Text(String),
}

/// The mathematical value of an `MdEvent`.
pub enum MdEventView {
    HeadingStart(u8),
    HeadingEnd,
    ListStart(u64),
    ListEnd,
    ItemStart,
    ItemEnd,
    LinkStart(Seq<char>, Seq<char>),
    LinkEnd,
    Text(Seq<char>),
}

impl View for MdEvent {
    type V = MdEventView;

    open spec fn view(&self) -> MdEventView {
        match self {
            MdEvent::HeadingStart(l) => MdEventView::HeadingStart(*l),
            MdEvent::HeadingEnd => MdEventView::HeadingEnd,
            MdEvent::ListStart(n) => MdEventView::ListStart(*n),
            MdEvent::ListEnd => MdEventView::ListEnd,
            MdEvent::ItemStart => MdEventView::ItemStart,
            MdEvent::ItemEnd => MdEventView::ItemEnd,
            MdEvent::LinkStart(u, t) => MdEventView::LinkStart(u@, t@),
            MdEvent::LinkEnd => MdEventView::LinkEnd,
            MdEvent::Text(t) => MdEventView::Text(t@),
        }
    }
}

pub open spec fn events_view(v: Seq<MdEvent>) -> Seq<MdEventView> {
    v.map_values(|e: MdEvent| e@)
}

/// Whether a heading is open at the end of `h`.
pub open spec fn heading_open(h: Seq<MdEventView>) -> bool
    decreases h.len(),
{
    if h.len() == 0 {
        false
    } else {
        match h.last() {
            MdEventView::HeadingStart(_) => true,
            MdEventView::HeadingEnd => false,
            _ => heading_open(h.drop_last()),
        }
    }
}

/// The number of links open at the end of `h`.
pub open spec fn link_depth(h: Seq<MdEventView>) -> int
    decreases h.len(),
{
    if h.len() == 0 {
        0
    } else {
        match h.last() {
            MdEventView::LinkStart(_, _) => link_depth(h.drop_last()) + 1,
            MdEventView::LinkEnd => link_depth(h.drop_last()) - 1,
            _ => link_depth(h.drop_last()),
        }
    }
}

/// Whether `e` may follow the events `h`: a heading has a valid level and is
/// not opened inside another, and only an open heading or link is closed.
pub open spec fn may_follow(h: Seq<MdEventView>, e: MdEventView) -> bool {
    match e {
        MdEventView::HeadingStart(l) => 1 <= l <= 6 && !heading_open(h),
        MdEventView::HeadingEnd => heading_open(h),
        MdEventView::LinkEnd => link_depth(h) > 0,
        _ => true,
    }
}

/// Every event of `h` may follow the ones before it.
pub open spec fn well_nested(h: Seq<MdEventView>) -> bool
    decreases h.len(),
{
    h.len() == 0 || (well_nested(h.drop_last()) && may_follow(h.drop_last(), h.last()))
}

/// Unfolds the three stream predicates over one appended event.
pub proof fn lemma_push(h: Seq<MdEventView>, e: MdEventView)
    ensures
        well_nested(h.push(e)) == (well_nested(h) && may_follow(h, e)),
        heading_open(h.push(e)) == match e {
            MdEventView::HeadingStart(_) => true,
            MdEventView::HeadingEnd => false,
            _ => heading_open(h),
        },
        link_depth(h.push(e)) == match e {
            MdEventView::LinkStart(_, _) => link_depth(h) + 1,
            MdEventView::LinkEnd => link_depth(h) - 1,
            _ => link_depth(h),
        },
{
    assert(h.push(e).drop_last() =~= h);
}

#[verifier::external_type_specification]
#[verifier::external_body]
pub struct ExCmarkState<'a>(pulldown_cmark_to_cmark::State<'a>);

#[verifier::external_type_specification]
#[verifier::external_body]
pub struct ExCmarkEvent<'a>(pulldown_cmark::Event<'a>);

#[verifier::external_type_specification]
#[verifier::external_body]
pub struct ExHeadingLevel(pulldown_cmark::HeadingLevel);

#[verifier::external_type_specification]
#[verifier::external_body]
pub struct ExFmtError(std::fmt::Error);

/// The text that `pulldown_cmark_to_cmark::cmark_resume` appends when it
/// renders `events` from the state that rendering `prior` from the start left.
pub uninterp spec fn cmark_chunk(prior: Seq<MdEventView>, events: Seq<MdEventView>) -> Seq<char>;

/// What rendering has done so far: the writer's state, and every event that
/// went through it since the start of the document.
pub struct RenderState {
    inner: pulldown_cmark_to_cmark::State<'static>,
    history: Ghost<Seq<MdEventView>>,
}

impl RenderState {
    /// The events rendered so far, in order.
    pub closed spec fn history(&self) -> Seq<MdEventView> {
        self.history@
    }
}

/// The events rendered before a call that continues from `state`.
pub open spec fn prior_of(state: Option<RenderState>) -> Seq<MdEventView> {
    match state {
        Some(s) => s.history(),
        None => Seq::empty(),
    }
}

/// Rendering failed because the output buffer refused a write.
pub struct RenderError;

/// Relies on `pulldown_cmark::HeadingLevel::try_from`, which accepts the
/// levels 1 to 6. Used by `cmark_event` on the levels that `may_follow`
/// admits.
#[verifier::external_body]
fn heading_level(l: u8) -> pulldown_cmark::HeadingLevel
    requires
        1 <= l <= 6,
{
    pulldown_cmark::HeadingLevel::try_from(l as usize).unwrap()
}

/// Converts one event into the Markdown parser's event type, field for field,
/// for `cmark_resume_into`. The writer ignores the level of a heading's end
/// and the kind of a list's end.
#[verifier::external_body]
fn cmark_event(e: &MdEvent) -> CmEvent<'static>
    requires
        *e matches MdEvent::HeadingStart(l) ==> 1 <= l <= 6,
{
    match e {
        MdEvent::HeadingStart(l) => Start(Tag::Heading { level: heading_level(*l), id: None, classes: vec![], attrs: vec![] }),
        MdEvent::HeadingEnd => End(TagEnd::Heading(H1)),
        MdEvent::ListStart(n) => Start(Tag::List(Some(*n))),
        MdEvent::ListEnd => End(TagEnd::List(true)),
        MdEvent::ItemStart => Start(Tag::Item),
        MdEvent::ItemEnd => End(TagEnd::Item),
        MdEvent::LinkStart(u, t) => Start(Tag::Link { link_type: Inline, dest_url: u.clone().into(), title: t.clone().into(), id: "".into() }),
        MdEvent::LinkEnd => End(TagEnd::Link),
        MdEvent::Text(t) => Text(t.clone().into()),
    }
}

/// Relies on `pulldown_cmark_to_cmark::cmark_resume` with default options: it
/// appends to `out` the rendering of `events`, which depends only on those and
/// on the events that the state handed in has seen. Its only errors are the
/// buffer's own write errors, which a `String` never returns. It panics where
/// a heading opens inside another or a heading or link closes that is not
/// open.
#[verifier::external_body]
fn cmark_resume_into(events: &Vec<MdEvent>, out: &mut String, state: Option<RenderState>) -> (r:
    Result<pulldown_cmark_to_cmark::State<'static>, std::fmt::Error>)
    requires
        well_nested(prior_of(state) + events_view(events@)),
    ensures
        r is Ok,
        r is Ok ==> final(out)@ == old(out)@ + cmark_chunk(prior_of(state), events_view(events@)),
{
    let evs: Vec<CmEvent<'static>> = events.iter().map(cmark_event).collect();
    pulldown_cmark_to_cmark::cmark_resume(evs.iter(), out, state.map(|s| s.inner))
}

/// Renders `events` after those that `state` has seen (none for `None`),
/// appending the text to `out`; rendering into a `String` always succeeds.
pub fn render(events: &Vec<MdEvent>, out: &mut String, state: Option<RenderState>) -> (r: Result<
    RenderState,
    RenderError,
>)
    requires
        well_nested(prior_of(state) + events_view(events@)),
    ensures
        r is Ok,
        r matches Ok(s) ==> s.history() == prior_of(state) + events_view(events@) && final(out)@
            == old(out)@ + cmark_chunk(prior_of(state), events_view(events@)),
{
    let ghost prior = prior_of(state);
    match cmark_resume_into(events, out, state) {
        Ok(inner) => Ok(RenderState { inner, history: Ghost(prior + events_view(events@)) }),
        Err(_) => Err(RenderError),
    }
}

} // verus!
