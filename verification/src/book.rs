//! The document tree and its traversal.
//!
//! A book is an ordered, possibly nested sequence of nodes; only chapters
//! carry free-form text. `process_book` passes every chapter's content
//! through the substitution engine and leaves all structural fields (name,
//! numbering, path, hierarchy) untouched.

use vstd::prelude::*;

use crate::replacer::replace_page_breaks;
use crate::replacer::substituted;

verus! {

broadcast use vstd::seq::group_seq_axioms, vstd::std_specs::vec::group_vec_axioms;

/// One chapter: free-form content plus structural metadata, with nested
/// sub-chapters.
pub struct Chapter {
    /// The chapter title.
    pub name: String,
    /// The free-form text that substitution rewrites.
    pub content: String,
    /// The section number, e.g. `[1, 2]` for section 1.2, if any.
    pub number: Option<Vec<u32>>,
    /// The path of the chapter's source file, if any.
    pub path: Option<String>,
    /// Nested chapters and other nodes.
    pub sub_items: Vec<BookNode>,
}

/// A node of the document tree: a content-bearing chapter, a separator
/// drawn between chapters, or a part title.
pub enum BookNode {
    Chapter(Chapter),
    Separator,
    PartTitle(String),
}

/// A book: the ordered top-level nodes of the document tree.
pub struct Book {
    pub sections: Vec<BookNode>,
}

/// The mathematical model of a chapter.
pub struct ChapterView {
    pub name: Seq<char>,
    pub content: Seq<char>,
    pub number: Option<Seq<u32>>,
    pub path: Option<Seq<char>>,
    pub sub_items: Seq<NodeView>,
}

/// The mathematical model of a tree node.
pub enum NodeView {
    Chapter(ChapterView),
    Separator,
    PartTitle(Seq<char>),
}

/// The mathematical model of a book.
pub struct BookView {
    pub sections: Seq<NodeView>,
}

/// The model of a chapter: each field's view, the sub-items modelled
/// node by node.
pub open spec fn chapter_view(c: Chapter) -> ChapterView
    decreases c,
{
    ChapterView {
        name: c.name@,
        content: c.content@,
        number: match c.number {
            Some(n) => Some(n@),
            None => None,
        },
        path: match c.path {
            Some(p) => Some(p@),
            None => None,
        },
        sub_items: nodes_view(c.sub_items@),
    }
}

/// The model of a tree node.
pub open spec fn node_view(n: BookNode) -> NodeView
    decreases n,
{
    match n {
        BookNode::Chapter(c) => NodeView::Chapter(chapter_view(c)),
        BookNode::Separator => NodeView::Separator,
        BookNode::PartTitle(t) => NodeView::PartTitle(t@),
    }
}

/// The model of a sequence of tree nodes, node by node.
pub open spec fn nodes_view(s: Seq<BookNode>) -> Seq<NodeView>
    decreases s,
{
    if s.len() == 0 {
        Seq::empty()
    } else {
        seq![node_view(s[0])] + nodes_view(s.drop_first())
    }
}

impl View for Chapter {
    type V = ChapterView;

    open spec fn view(&self) -> ChapterView {
        chapter_view(*self)
    }
}

impl View for BookNode {
    type V = NodeView;

    open spec fn view(&self) -> NodeView {
        node_view(*self)
    }
}

impl View for Book {
    type V = BookView;

    open spec fn view(&self) -> BookView {
        BookView { sections: nodes_view(self.sections@) }
    }
}

/// `nodes_view` maps `node_view` over the nodes, keeping order and length.
pub proof fn lemma_nodes_view_elementwise(s: Seq<BookNode>)
    ensures
        nodes_view(s).len() == s.len(),
        forall|i: int| 0 <= i < s.len() ==> #[trigger] nodes_view(s)[i] == node_view(s[i]),
    decreases s,
{
    if s.len() != 0 {
        lemma_nodes_view_elementwise(s.drop_first());
    }
}

/// The model of a processed chapter: content substituted, sub-items
/// processed, every other field unchanged.
pub open spec fn spec_process_chapter(c: ChapterView, repl: Seq<char>) -> ChapterView
    decreases c,
{
    ChapterView {
        content: substituted(c.content, repl),
        sub_items: spec_process_nodes(c.sub_items, repl),
        ..c
    }
}

/// The model of a processed tree node: only chapters change.
pub open spec fn spec_process_node(n: NodeView, repl: Seq<char>) -> NodeView
    decreases n,
{
    match n {
        NodeView::Chapter(c) => NodeView::Chapter(spec_process_chapter(c, repl)),
        NodeView::Separator => NodeView::Separator,
        NodeView::PartTitle(t) => NodeView::PartTitle(t),
    }
}

/// The model of a processed sequence of tree nodes, node by node.
pub open spec fn spec_process_nodes(s: Seq<NodeView>, repl: Seq<char>) -> Seq<NodeView>
    decreases s,
{
    if s.len() == 0 {
        s
    } else {
        seq![spec_process_node(s[0], repl)] + spec_process_nodes(s.drop_first(), repl)
    }
}

/// The model of a processed book.
pub open spec fn spec_process_book(b: BookView, repl: Seq<char>) -> BookView {
    BookView { sections: spec_process_nodes(b.sections, repl) }
}

/// Law: processing rewrites each node independently, keeping order and
/// count.
pub proof fn lemma_process_nodes_elementwise(s: Seq<NodeView>, repl: Seq<char>)
    ensures
        spec_process_nodes(s, repl).len() == s.len(),
        forall|i: int|
            0 <= i < s.len() ==> #[trigger] spec_process_nodes(s, repl)[i] == spec_process_node(
                s[i],
                repl,
            ),
    decreases s,
{
    if s.len() != 0 {
        lemma_process_nodes_elementwise(s.drop_first(), repl);
    }
}

/// Law: processing a chapter rewrites exactly its content; name, numbering
/// and path are unchanged, and the sub-items keep their count, each
/// processed in place.
pub proof fn lemma_process_chapter_keeps_structure(c: ChapterView, repl: Seq<char>)
    ensures
        spec_process_chapter(c, repl).name == c.name,
        spec_process_chapter(c, repl).number == c.number,
        spec_process_chapter(c, repl).path == c.path,
        spec_process_chapter(c, repl).content == substituted(c.content, repl),
        spec_process_chapter(c, repl).sub_items.len() == c.sub_items.len(),
        forall|i: int|
            0 <= i < c.sub_items.len() ==> #[trigger] spec_process_chapter(c, repl).sub_items[i]
                == spec_process_node(c.sub_items[i], repl),
{
    lemma_process_nodes_elementwise(c.sub_items, repl);
}

/// Process one chapter: substitute in its content and recurse into its
/// sub-items.
fn process_chapter(c: Chapter, repl: &str) -> (r: Chapter)
    ensures
        r@ == spec_process_chapter(c@, repl@),
    decreases c,
{
    proof {
        assert(decreases_to!(c => c.sub_items));
    }
    let Chapter { name, content, number, path, sub_items } = c;
    let new_content = replace_page_breaks(content.as_str(), repl);
    let new_subs = process_items(sub_items, repl);
    Chapter { name, content: new_content, number, path, sub_items: new_subs }
}

/// Process one tree node: only a chapter changes.
fn process_node(n: BookNode, repl: &str) -> (r: BookNode)
    ensures
        r@ == spec_process_node(n@, repl@),
    decreases n,
{
    match n {
        BookNode::Chapter(c) => BookNode::Chapter(process_chapter(c, repl)),
        BookNode::Separator => BookNode::Separator,
        BookNode::PartTitle(t) => BookNode::PartTitle(t),
    }
}

/// Process a sequence of tree nodes, node by node.
fn process_items(items: Vec<BookNode>, repl: &str) -> (r: Vec<BookNode>)
    ensures
        nodes_view(r@) == spec_process_nodes(nodes_view(items@), repl@),
    decreases items@,
{
    let ghost items0 = items@;
    let mut items = items;
    if items.len() == 0 {
        proof {
            assert(nodes_view(items@) =~= Seq::<NodeView>::empty());
        }
        items
    } else {
        let first = items.remove(0);
        proof {
            vstd::seq::axiom_seq_len_decreases(items0, items@);
            assert(items@ =~= items0.drop_first());
        }
        let rest = process_items(items, repl);
        let processed = process_node(first, repl);
        let mut out = rest;
        out.insert(0, processed);
        proof {
            lemma_nodes_view_elementwise(items0);
            lemma_nodes_view_elementwise(items0.drop_first());
            lemma_nodes_view_elementwise(out@);
            lemma_nodes_view_elementwise(out@.drop_first());
            assert(out@.drop_first() =~= rest@);
            assert(nodes_view(items0).drop_first() =~= nodes_view(items0.drop_first()));
            assert(nodes_view(out@) =~= seq![node_view(processed)] + nodes_view(rest@));
            assert(nodes_view(items0)[0] == node_view(first));
            assert(spec_process_nodes(nodes_view(items0), repl@) == seq![
                spec_process_node(nodes_view(items0)[0], repl@),
            ] + spec_process_nodes(nodes_view(items0).drop_first(), repl@));
        }
        out
    }
}

/// Process a whole book: every chapter's content goes through the
/// substitution engine with the given replacement; tree structure and
/// every non-content field come back unchanged.
pub fn process_book(book: Book, repl: &str) -> (r: Book)
    ensures
        r@ == spec_process_book(book@, repl@),
{
    let Book { sections } = book;
    let new_sections = process_items(sections, repl);
    Book { sections: new_sections }
}

} // verus!
