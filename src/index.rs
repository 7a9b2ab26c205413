//! Assembling the index chapter of a collection of documents.
use crate::events::{
    MdEvent, MdEventView, RenderError, cmark_chunk, heading_open, lemma_push,
    link_depth, render, well_nested, events_view,
};
use crate::title::{extract_title, title_spec};
use vstd::prelude::*;

verus! {

/// One source document: its file name inside the collection, and its text.
pub struct Document {
    pub name: String,
    pub text: String,
}

/// A chapter built from one document.
pub struct DocumentNode {
    pub title: String,
    pub content: String,
    /// Location relative to the book's source root.
    pub path: String,
    pub parent_names: Vec<String>,
}

/// The synthesized index chapter, holding one child per document.
pub struct IndexNode {
    pub title: String,
    pub content: String,
    pub path: String,
    pub children: Vec<DocumentNode>,
}

/// The collection's directory under the book's source root.
pub open spec fn collection_spec() -> Seq<char> {
    seq!['r', 'f', 'c', 's']
}

/// The placeholder that a later stage of the book's build resolves.
pub open spec fn marker_spec() -> Seq<char> {
    seq!['!', '{', '#', 'c', 'o', 'p', 'y', 'r', 'i', 'g', 'h', 't', '}']
}

/// The heading text of the index.
pub open spec fn index_heading_spec() -> Seq<char> {
    seq!['R', 'F', 'C', ' ', 'I', 'n', 'd', 'e', 'x']
}

/// The index chapter's name.
pub open spec fn index_title_spec() -> Seq<char> {
    seq!['R', 'F', 'C', 's', ' ', 'I', 'n', 'd', 'e', 'x']
}

/// Where the index chapter lives.
pub open spec fn index_path_spec() -> Seq<char> {
    collection_spec() + seq!['/', 'i', 'n', 'd', 'e', 'x', '.', 'm', 'd']
}

/// A document's stored content: its text, then the placeholder on a line of
/// its own.
pub open spec fn node_content_spec(text: Seq<char>) -> Seq<char> {
    text + seq!['\n'] + marker_spec()
}

/// The location of the document named `name`.
pub open spec fn node_path_spec(name: Seq<char>) -> Seq<char> {
    collection_spec() + seq!['/'] + name
}

pub open spec fn strings_view(v: Seq<String>) -> Seq<Seq<char>> {
    v.map_values(|s: String| s@)
}

/// `n` is the chapter built from `d` under the given parents.
pub open spec fn is_node_of(n: DocumentNode, d: Document, parents: Seq<Seq<char>>) -> bool {
    &&& n.title@ == title_spec(d.text@)
    &&& n.content@ == node_content_spec(d.text@)
    &&& n.path@ == node_path_spec(d.name@)
    &&& strings_view(n.parent_names@) == parents
}

/// The events that open the index: its heading and an ordered list from one.
pub open spec fn header_events() -> Seq<MdEventView> {
    seq![
        MdEventView::HeadingStart(1),
        MdEventView::Text(index_heading_spec()),
        MdEventView::HeadingEnd,
        MdEventView::ListStart(1),
    ]
}

/// The list item that links to `link` under `title`.
pub open spec fn item_events(link: Seq<char>, title: Seq<char>) -> Seq<MdEventView> {
    seq![
        MdEventView::ItemStart,
        MdEventView::LinkStart(link, title),
        MdEventView::Text(title),
        MdEventView::LinkEnd,
        MdEventView::ItemEnd,
    ]
}

/// The events that close the index: the list's end and the placeholder.
pub open spec fn closing_events() -> Seq<MdEventView> {
    seq![MdEventView::ListEnd, MdEventView::Text(marker_spec())]
}

/// The list item for document `d`.
pub open spec fn doc_item(d: Document) -> Seq<MdEventView> {
    item_events(d.name@, title_spec(d.text@))
}

/// The list items of the first `n` documents.
pub open spec fn items_through(docs: Seq<Document>, n: nat) -> Seq<MdEventView>
    decreases n,
{
    if n == 0 || n > docs.len() {
        Seq::empty()
    } else {
        items_through(docs, (n - 1) as nat) + doc_item(docs[n - 1])
    }
}

/// All events of the index of `docs`, in order.
pub open spec fn index_events(docs: Seq<Document>) -> Seq<MdEventView> {
    header_events() + items_through(docs, docs.len()) + closing_events()
}

/// The text rendered for the header and the first `n` items, call by call.
pub open spec fn text_through(docs: Seq<Document>, n: nat) -> Seq<char>
    decreases n,
{
    if n == 0 || n > docs.len() {
        cmark_chunk(Seq::empty(), header_events())
    } else {
        text_through(docs, (n - 1) as nat) + cmark_chunk(
            header_events() + items_through(docs, (n - 1) as nat),
            doc_item(docs[n - 1]),
        )
    }
}

/// The index's whole rendered text.
pub open spec fn index_text(docs: Seq<Document>) -> Seq<char> {
    text_through(docs, docs.len()) + cmark_chunk(
        header_events() + items_through(docs, docs.len()),
        closing_events(),
    )
}

/// Number of list items opened in `h`.
pub open spec fn item_count(h: Seq<MdEventView>) -> nat
    decreases h.len(),
{
    if h.len() == 0 {
        0
    } else {
        item_count(h.drop_last()) + if h.last() is ItemStart {
            1nat
        } else {
            0nat
        }
    }
}

/// The stream is at the top level of a list: no heading or link open.
pub open spec fn at_list_level(h: Seq<MdEventView>) -> bool {
    well_nested(h) && !heading_open(h) && link_depth(h) == 0
}

proof fn lemma_count_push(h: Seq<MdEventView>, e: MdEventView)
    ensures
        item_count(h.push(e)) == item_count(h) + if e is ItemStart {
            1nat
        } else {
            0nat
        },
{
    assert(h.push(e).drop_last() =~= h);
}

/// Appending one document's item keeps the stream at list level and adds one
/// item.
proof fn lemma_item_step(h: Seq<MdEventView>, link: Seq<char>, title: Seq<char>)
    requires
        at_list_level(h),
    ensures
        at_list_level(h + item_events(link, title)),
        item_count(h + item_events(link, title)) == item_count(h) + 1,
{
    let a = MdEventView::ItemStart;
    let b = MdEventView::LinkStart(link, title);
    let c = MdEventView::Text(title);
    let d = MdEventView::LinkEnd;
    let e = MdEventView::ItemEnd;
    assert(h + item_events(link, title) =~= h.push(a).push(b).push(c).push(d).push(e));
    lemma_push(h, a);
    lemma_push(h.push(a), b);
    lemma_push(h.push(a).push(b), c);
    lemma_push(h.push(a).push(b).push(c), d);
    lemma_push(h.push(a).push(b).push(c).push(d), e);
    lemma_count_push(h, a);
    lemma_count_push(h.push(a), b);
    lemma_count_push(h.push(a).push(b), c);
    lemma_count_push(h.push(a).push(b).push(c), d);
    lemma_count_push(h.push(a).push(b).push(c).push(d), e);
}

proof fn lemma_header()
    ensures
        at_list_level(header_events()),
        item_count(header_events()) == 0,
{
    let e = Seq::<MdEventView>::empty();
    let a = MdEventView::HeadingStart(1);
    let b = MdEventView::Text(index_heading_spec());
    let c = MdEventView::HeadingEnd;
    let d = MdEventView::ListStart(1);
    assert(header_events() =~= e.push(a).push(b).push(c).push(d));
    lemma_push(e, a);
    lemma_push(e.push(a), b);
    lemma_push(e.push(a).push(b), c);
    lemma_push(e.push(a).push(b).push(c), d);
    lemma_count_push(e, a);
    lemma_count_push(e.push(a), b);
    lemma_count_push(e.push(a).push(b), c);
    lemma_count_push(e.push(a).push(b).push(c), d);
}

proof fn lemma_closing(h: Seq<MdEventView>)
    requires
        at_list_level(h),
    ensures
        well_nested(h + closing_events()),
        item_count(h + closing_events()) == item_count(h),
{
    let a = MdEventView::ListEnd;
    let b = MdEventView::Text(marker_spec());
    assert(h + closing_events() =~= h.push(a).push(b));
    lemma_push(h, a);
    lemma_push(h.push(a), b);
    lemma_count_push(h, a);
    lemma_count_push(h.push(a), b);
}

proof fn lemma_items_through(docs: Seq<Document>, n: nat)
    requires
        n <= docs.len(),
    ensures
        at_list_level(header_events() + items_through(docs, n)),
        item_count(header_events() + items_through(docs, n)) == n,
        items_through(docs, n).len() == 5 * n,
        forall|i: int|
            0 <= i < n ==> #[trigger] items_through(docs, n).subrange(5 * i, 5 * i + 5) == doc_item(
                docs[i],
            ),
    decreases n,
{
    if n == 0 {
        lemma_header();
        assert(header_events() + items_through(docs, n) =~= header_events());
    } else {
        let m = (n - 1) as nat;
        lemma_items_through(docs, m);
        let d = docs[n - 1];
        lemma_item_step(header_events() + items_through(docs, m), d.name@, title_spec(d.text@));
        assert(header_events() + items_through(docs, n) =~= (header_events() + items_through(
            docs,
            m,
        )) + doc_item(d));
        assert forall|i: int| 0 <= i < n implies #[trigger] items_through(docs, n).subrange(
            5 * i,
            5 * i + 5,
        ) == doc_item(docs[i]) by {
            if i < m {
                assert(items_through(docs, n).subrange(5 * i, 5 * i + 5) =~= items_through(
                    docs,
                    m,
                ).subrange(5 * i, 5 * i + 5));
            } else {
                assert(items_through(docs, n).subrange(5 * i, 5 * i + 5) =~= doc_item(d));
            }
        }
    }
}

/// The rendered index lists one item per document, in the documents' order:
/// item `i` links to document `i`'s name in the collection, under its title.
pub proof fn lemma_items_follow_documents(docs: Seq<Document>)
    ensures
        well_nested(index_events(docs)),
        item_count(index_events(docs)) == docs.len(),
        index_events(docs).len() == 6 + 5 * docs.len(),
        forall|i: int|
            0 <= i < docs.len() ==> {
                &&& index_events(docs)[4 + 5 * i] == MdEventView::ItemStart
                &&& #[trigger] index_events(docs)[5 + 5 * i] == MdEventView::LinkStart(
                    docs[i].name@,
                    title_spec(docs[i].text@),
                )
                &&& index_events(docs)[6 + 5 * i] == MdEventView::Text(title_spec(docs[i].text@))
            },
{
    let n = docs.len();
    lemma_items_through(docs, n);
    lemma_closing(header_events() + items_through(docs, n));
    assert(index_events(docs) =~= (header_events() + items_through(docs, n)) + closing_events());
    assert forall|i: int| 0 <= i < docs.len() implies {
        &&& index_events(docs)[4 + 5 * i] == MdEventView::ItemStart
        &&& #[trigger] index_events(docs)[5 + 5 * i] == MdEventView::LinkStart(
            docs[i].name@,
            title_spec(docs[i].text@),
        )
        &&& index_events(docs)[6 + 5 * i] == MdEventView::Text(title_spec(docs[i].text@))
    } by {
        let s = items_through(docs, n).subrange(5 * i, 5 * i + 5);
        assert(s == doc_item(docs[i]));
        assert(index_events(docs)[4 + 5 * i] == s[0]);
        assert(index_events(docs)[5 + 5 * i] == s[1]);
        assert(index_events(docs)[6 + 5 * i] == s[2]);
    }
}

/// Builds the chapter for a document with the given title, location and
/// parents: its content is the text with the placeholder appended on a line of
/// its own.
pub fn build_document_node(text: &str, title: String, path: String, parents: &Vec<String>) -> (r:
    DocumentNode)
    ensures
        r.title == title,
        r.path == path,
        r.content@ == node_content_spec(text@),
        strings_view(r.parent_names@) == strings_view(parents@),
{
    let mut content = text.to_owned();
    content.append("\n!{#copyright}");
    proof {
        reveal_strlit("\n!{#copyright}");
        assert(content@ =~= node_content_spec(text@));
    }
    let mut parent_names: Vec<String> = Vec::new();
    let mut i: usize = 0;
    while i < parents.len()
        invariant
            i <= parents@.len(),
            parent_names@.len() == i,
            forall|j: int| 0 <= j < i ==> #[trigger] parent_names@[j]@ == parents@[j]@,
        decreases parents@.len() - i,
    {
        parent_names.push(parents[i].clone());
        i = i + 1;
    }
    assert(strings_view(parent_names@) =~= strings_view(parents@));
    DocumentNode { title, content, path, parent_names }
}

/// The location, under the book's source root, of the document named `name`.
pub fn node_path(name: &str) -> (r: String)
    ensures
        r@ == node_path_spec(name@),
{
    let mut p = "rfcs/".to_owned();
    p.append(name);
    proof {
        reveal_strlit("rfcs/");
        assert(p@ =~= node_path_spec(name@));
    }
    p
}

/// The list item for a document, as events.
pub fn item_events_for(link: &String, title: &String) -> (r: Vec<MdEvent>)
    ensures
        events_view(r@) == item_events(link@, title@),
{
    let mut v: Vec<MdEvent> = Vec::new();
    v.push(MdEvent::ItemStart);
    v.push(MdEvent::LinkStart(link.clone(), title.clone()));
    v.push(MdEvent::Text(title.clone()));
    v.push(MdEvent::LinkEnd);
    v.push(MdEvent::ItemEnd);
    assert(events_view(v@) =~= item_events(link@, title@));
    v
}

/// The events that open the index.
pub fn header_events_exec() -> (r: Vec<MdEvent>)
    ensures
        events_view(r@) == header_events(),
{
    let mut v: Vec<MdEvent> = Vec::new();
    v.push(MdEvent::HeadingStart(1));
    let heading = "RFC Index".to_owned();
    proof {
        reveal_strlit("RFC Index");
        assert(heading@ =~= index_heading_spec());
    }
    v.push(MdEvent::Text(heading));
    v.push(MdEvent::HeadingEnd);
    v.push(MdEvent::ListStart(1));
    assert(events_view(v@) =~= header_events());
    v
}

/// The events that close the index.
pub fn closing_events_exec() -> (r: Vec<MdEvent>)
    ensures
        events_view(r@) == closing_events(),
{
    let mut v: Vec<MdEvent> = Vec::new();
    v.push(MdEvent::ListEnd);
    let marker = "!{#copyright}".to_owned();
    proof {
        reveal_strlit("!{#copyright}");
        assert(marker@ =~= marker_spec());
    }
    v.push(MdEvent::Text(marker));
    assert(events_view(v@) =~= closing_events());
    v
}

/// Builds the index chapter of `docs`: a heading, then an ordered list with
/// one link per document in the given order, each labelled with the
/// document's title, then the placeholder; its children are the documents'
/// chapters in the same order. Always succeeds.
pub fn assemble_index(docs: &Vec<Document>) -> (r: Result<IndexNode, RenderError>)
    ensures
        r is Ok,
        r matches Ok(idx) ==> {
            &&& idx.title@ == index_title_spec()
            &&& idx.path@ == index_path_spec()
            &&& idx.content@ == index_text(docs@)
            &&& idx.children@.len() == docs@.len()
            &&& forall|i: int|
                0 <= i < docs@.len() ==> is_node_of(
                    #[trigger] idx.children@[i],
                    docs@[i],
                    seq![collection_spec()],
                )
        },
{
    let mut parents: Vec<String> = Vec::new();
    let collection = "rfcs".to_owned();
    proof {
        reveal_strlit("rfcs");
        assert(collection@ =~= collection_spec());
    }
    parents.push(collection);
    proof {
        assert(strings_view(parents@) =~= seq![collection_spec()]);
    }
    let mut content = String::new();
    let header = header_events_exec();
    proof {
        lemma_header();
        assert(Seq::<MdEventView>::empty() + header_events() =~= header_events());
    }
    let mut state = match render(&header, &mut content, None) {
        Ok(s) => s,
        Err(e) => return Err(e),
    };
    assert(content@ =~= text_through(docs@, 0));
    let mut children: Vec<DocumentNode> = Vec::new();
    let mut i: usize = 0;
    while i < docs.len()
        invariant
            i <= docs@.len(),
            strings_view(parents@) == seq![collection_spec()],
            state.history() == header_events() + items_through(docs@, i as nat),
            content@ == text_through(docs@, i as nat),
            children@.len() == i,
            forall|j: int|
                0 <= j < i ==> is_node_of(#[trigger] children@[j], docs@[j], seq![collection_spec()]),
        decreases docs@.len() - i,
    {
        let doc = &docs[i];
        let title = extract_title(doc.text.as_str());
        let path = node_path(doc.name.as_str());
        let events = item_events_for(&doc.name, &title);
        proof {
            lemma_items_through(docs@, i as nat);
            lemma_items_through(docs@, (i + 1) as nat);
            lemma_item_step(state.history(), doc.name@, title@);
        }
        state = match render(&events, &mut content, Some(state)) {
            Ok(s) => s,
            Err(e) => return Err(e),
        };
        let node = build_document_node(doc.text.as_str(), title, path, &parents);
        children.push(node);
        assert(items_through(docs@, (i + 1) as nat) == items_through(docs@, i as nat) + doc_item(
            docs@[i as int],
        ));
        i = i + 1;
    }
    let closing = closing_events_exec();
    proof {
        lemma_items_through(docs@, docs@.len());
        lemma_closing(header_events() + items_through(docs@, docs@.len()));
    }
    match render(&closing, &mut content, Some(state)) {
        Ok(_) => {},
        Err(e) => return Err(e),
    }
    let title = "RFCs Index".to_owned();
    let path = "rfcs/index.md".to_owned();
    proof {
        reveal_strlit("RFCs Index");
        reveal_strlit("rfcs/index.md");
        assert(title@ =~= index_title_spec());
        assert(path@ =~= index_path_spec());
    }
    Ok(IndexNode { title, content, path, children })
}

} // verus!

