//! The policy dispatcher.
//!
//! A target-format name picks one of two fixed replacement policies:
//! `"html"` renders each line-anchored page-break marker as the HTML
//! fragment, every other format strips the markers. `LineBreaks::run`
//! applies the chosen policy to every chapter of a book.

use vstd::prelude::*;

use crate::book::Book;
use crate::book::process_book;
use crate::book::spec_process_book;
use crate::replacer::HTML_BREAK;
use crate::replacer::html_break;

verus! {

/// The replacement policy for one target format.
#[derive(Clone, Copy, Debug, PartialEq, Eq, Structural)]
pub enum Policy {
    /// Render each line-anchored marker as the HTML page-break fragment.
    RenderAsHtml,
    /// Strip each line-anchored marker.
    StripOnly,
}

/// The policy that a target-format name selects: `"html"` renders, every
/// other format strips.
pub open spec fn spec_policy_for(renderer: Seq<char>) -> Policy {
    if renderer == "html"@ {
        Policy::RenderAsHtml
    } else {
        Policy::StripOnly
    }
}

/// The replacement string that a policy substitutes for the marker.
pub open spec fn spec_replacement(p: Policy) -> Seq<char> {
    match p {
        Policy::RenderAsHtml => html_break(),
        Policy::StripOnly => Seq::empty(),
    }
}

/// The replacement string that a target-format name leads to.
pub open spec fn replacement_for(renderer: Seq<char>) -> Seq<char> {
    spec_replacement(spec_policy_for(renderer))
}

/// Are two strings equal character for character?
fn str_eq(a: &str, b: &str) -> (r: bool)
    ensures
        r == (a@ == b@),
{
    let an = a.unicode_len();
    let bn = b.unicode_len();
    if an != bn {
        return false;
    }
    let mut i: usize = 0;
    while i < an
        invariant
            an == a@.len(),
            bn == b@.len(),
            an == bn,
            i <= an,
            forall|j: int| 0 <= j < i ==> a@[j] == b@[j],
        decreases an - i,
    {
        if a.get_char(i) != b.get_char(i) {
            return false;
        }
        i = i + 1;
    }
    proof {
        assert(a@ =~= b@);
    }
    true
}

impl Policy {
    /// Select the policy for a target-format name.
    pub fn for_renderer(renderer: &str) -> (p: Policy)
        ensures
            p == spec_policy_for(renderer@),
    {
        if str_eq(renderer, "html") {
            Policy::RenderAsHtml
        } else {
            Policy::StripOnly
        }
    }

    /// The replacement string that this policy substitutes for the marker.
    pub fn replacement(&self) -> (r: &'static str)
        ensures
            r@ == spec_replacement(*self),
    {
        match self {
            Policy::RenderAsHtml => HTML_BREAK,
            Policy::StripOnly => {
                proof {
                    reveal_strlit("");
                    assert(""@ =~= Seq::<char>::empty());
                }
                ""
            },
        }
    }
}

/// The page-break preprocessor: stateless, it dispatches on the target
/// format and rewrites every chapter of a book.
pub struct LineBreaks;

impl LineBreaks {
    /// Make a preprocessor.
    pub fn new() -> LineBreaks {
        LineBreaks
    }

    /// The preprocessor's name.
    pub fn name(&self) -> (r: &'static str)
        ensures
            r@ == "linebreaks-preprocessor"@,
    {
        "linebreaks-preprocessor"
    }

    /// Every target format is handled: an unknown one has its markers
    /// stripped rather than refused.
    pub fn supports_renderer(&self, _renderer: &str) -> (r: bool)
        ensures
            r,
    {
        true
    }

    /// Rewrite every chapter of `book` under the policy that `renderer`
    /// selects: with `"html"` each line-anchored marker becomes the HTML
    /// page-break fragment, with any other format it is removed. Always
    /// succeeds; structure and non-content fields come back unchanged.
    pub fn run(&self, renderer: &str, book: Book) -> (r: Book)
        ensures
            r@ == spec_process_book(book@, replacement_for(renderer@)),
    {
        let policy = Policy::for_renderer(renderer);
        let repl = policy.replacement();
        process_book(book, repl)
    }
}

} // verus!
