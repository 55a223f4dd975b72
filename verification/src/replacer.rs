//! The marker substitution engine.
//!
//! `replace_page_breaks` rewrites a text: every occurrence of the marker
//! token `{{---}}` that begins a line is replaced by a caller-supplied
//! string; every other occurrence stays as it is. The whole behaviour is
//! pinned down by the spec function [`substituted`].

use vstd::prelude::*;

verus! {

/// The marker token that denotes a page break when it begins a line.
pub const PAGE_BREAK: &'static str = "{{---}}";

/// The HTML fragment that stands in for a page break in HTML output.
pub const HTML_BREAK: &'static str = "<div class=\"mdbook_pagebreak\">&nbsp;</div>";

/// The marker token as a sequence of characters: the view of [`PAGE_BREAK`].
pub open spec fn marker() -> Seq<char> {
    seq!['{', '{', '-', '-', '-', '}', '}']
}

/// The view of [`HTML_BREAK`].
pub open spec fn html_break() -> Seq<char> {
    HTML_BREAK@
}

/// Does `text` begin with the marker token?
pub open spec fn starts_with_marker(text: Seq<char>) -> bool {
    text.len() >= marker().len() && text.subrange(0, marker().len() as int) == marker()
}

/// The result of substitution from a mid-scan state: `at_line_start` says
/// whether the first character of `text` stands at the beginning of a line
/// of the original input. A marker found at a line start is replaced by
/// `repl` and scanning resumes right after it (the character following the
/// marker is never at a line start, since the marker does not end in a
/// newline); any other character is kept and decides whether the next
/// position starts a line.
pub open spec fn subst_from(text: Seq<char>, at_line_start: bool, repl: Seq<char>) -> Seq<char>
    decreases text.len(),
{
    if text.len() == 0 {
        Seq::empty()
    } else if at_line_start && starts_with_marker(text) {
        repl + subst_from(text.skip(marker().len() as int), false, repl)
    } else {
        seq![text[0]] + subst_from(text.skip(1), text[0] == '\n', repl)
    }
}

/// The result of replacing every line-anchored marker occurrence in `text`
/// by `repl`: position 0 starts a line.
pub open spec fn substituted(text: Seq<char>, repl: Seq<char>) -> Seq<char> {
    subst_from(text, true, repl)
}

/// Does the marker token stand at position `i` of `text`?
fn marker_at(input: &str, i: usize) -> (r: bool)
    requires
        i + marker().len() <= input@.len() <= usize::MAX,
    ensures
        r == (input@.subrange(i as int, i as int + marker().len() as int) == marker()),
{
    let r = input.get_char(i) == '{' && input.get_char(i + 1) == '{' && input.get_char(i + 2)
        == '-' && input.get_char(i + 3) == '-' && input.get_char(i + 4) == '-' && input.get_char(
        i + 5,
    ) == '}' && input.get_char(i + 6) == '}';
    proof {
        let s = input@.subrange(i as int, i as int + marker().len() as int);
        if r {
            assert(s =~= marker());
        } else {
            assert(s != marker()) by {
                if s == marker() {
                    assert(input@[i as int] == s[0]);
                    assert(input@[i as int + 1] == s[1]);
                    assert(input@[i as int + 2] == s[2]);
                    assert(input@[i as int + 3] == s[3]);
                    assert(input@[i as int + 4] == s[4]);
                    assert(input@[i as int + 5] == s[5]);
                    assert(input@[i as int + 6] == s[6]);
                }
            }
        }
    }
    r
}

/// Replace every line-anchored occurrence of the marker token `{{---}}` in
/// `input` by `replacement`; occurrences embedded after other text on a
/// line are kept. Total: an input without the marker comes back unchanged.
pub fn replace_page_breaks(input: &str, replacement: &str) -> (r: String)
    ensures
        r@ == substituted(input@, replacement@),
{
    let n = input.unicode_len();
    let mut out = String::new();
    let mut i: usize = 0;
    let mut at_line_start: bool = true;
    proof {
        assert(input@.skip(0) =~= input@);
        assert(out@ + subst_from(input@, true, replacement@) =~= subst_from(
            input@,
            true,
            replacement@,
        ));
    }
    while i < n
        invariant
            n == input@.len(),
            i <= n,
            out@ + subst_from(input@.skip(i as int), at_line_start, replacement@) == substituted(
                input@,
                replacement@,
            ),
        decreases n - i,
    {
        let ghost rest = input@.skip(i as int);
        let ghost prev_out = out@;
        if n - i >= 7 && at_line_start && marker_at(input, i) {
            out.append(replacement);
            proof {
                assert(rest.subrange(0, marker().len() as int) =~= input@.subrange(
                    i as int,
                    i as int + marker().len() as int,
                ));
                assert(starts_with_marker(rest));
                assert(rest.skip(marker().len() as int) =~= input@.skip(i as int + 7));
                assert(subst_from(rest, true, replacement@) == replacement@ + subst_from(
                    input@.skip(i as int + 7),
                    false,
                    replacement@,
                ));
                assert(prev_out + (replacement@ + subst_from(
                    input@.skip(i as int + 7),
                    false,
                    replacement@,
                )) =~= out@ + subst_from(input@.skip(i as int + 7), false, replacement@));
            }
            i = i + 7;
            at_line_start = false;
        } else {
            let c = input.get_char(i);
            let piece = input.substring_char(i, i + 1);
            out.append(piece);
            proof {
                assert(rest[0] == c);
                if at_line_start && starts_with_marker(rest) {
                    assert(rest.subrange(0, marker().len() as int) =~= input@.subrange(
                        i as int,
                        i as int + marker().len() as int,
                    ));
                    assert(false);
                }
                assert(subst_from(rest, at_line_start, replacement@) == seq![c] + subst_from(
                    rest.skip(1),
                    c == '\n',
                    replacement@,
                ));
                assert(rest.skip(1) =~= input@.skip(i as int + 1));
                assert(piece@ =~= seq![c]);
                assert(prev_out + (seq![c] + subst_from(
                    input@.skip(i as int + 1),
                    c == '\n',
                    replacement@,
                )) =~= out@ + subst_from(input@.skip(i as int + 1), c == '\n', replacement@));
            }
            at_line_start = c == '\n';
            i = i + 1;
        }
    }
    proof {
        assert(input@.skip(n as int) =~= Seq::<char>::empty());
        assert(out@ + Seq::<char>::empty() =~= out@);
    }
    out
}

/// Does the marker token stand at position `i` of `text`?
pub open spec fn marker_occurrence_at(text: Seq<char>, i: int) -> bool {
    0 <= i <= text.len() && starts_with_marker(text.skip(i))
}

/// Does position `i` of `text` begin a line? Position 0 begins one exactly
/// when the scan state says so; any later position begins one exactly when
/// a newline precedes it.
pub open spec fn line_start_at(text: Seq<char>, at_line_start: bool, i: int) -> bool {
    if i == 0 {
        at_line_start
    } else {
        text[i - 1] == '\n'
    }
}

/// Does the marker token stand at a line start at position `i` of `text`?
pub open spec fn anchored_at(text: Seq<char>, at_line_start: bool, i: int) -> bool {
    marker_occurrence_at(text, i) && line_start_at(text, at_line_start, i)
}

/// Does some line-anchored marker occurrence stand in `text`, scanning from
/// the given line-start state?
pub open spec fn has_anchored_marker_from(text: Seq<char>, at_line_start: bool) -> bool {
    exists|i: int| #[trigger] anchored_at(text, at_line_start, i)
}

/// Does some line-anchored marker occurrence stand in `text`?
pub open spec fn has_anchored_marker(text: Seq<char>) -> bool {
    has_anchored_marker_from(text, true)
}

/// Does the marker token occur anywhere in `text`, line-anchored or not?
pub open spec fn contains_marker(text: Seq<char>) -> bool {
    exists|i: int| #[trigger] marker_occurrence_at(text, i)
}

/// Law: a text without a line-anchored marker occurrence comes back from
/// substitution unchanged, whatever the scan state and the replacement.
pub proof fn lemma_subst_no_anchored_marker(text: Seq<char>, at_line_start: bool, repl: Seq<char>)
    requires
        !has_anchored_marker_from(text, at_line_start),
    ensures
        subst_from(text, at_line_start, repl) == text,
    decreases text.len(),
{
    if text.len() == 0 {
        assert(subst_from(text, at_line_start, repl) =~= text);
    } else {
        if at_line_start && starts_with_marker(text) {
            assert(text.skip(0) =~= text);
            assert(anchored_at(text, at_line_start, 0));
            assert(false);
        }
        let ls1 = text[0] == '\n';
        assert(!has_anchored_marker_from(text.skip(1), ls1)) by {
            if has_anchored_marker_from(text.skip(1), ls1) {
                let j = choose|j: int| #[trigger] anchored_at(text.skip(1), ls1, j);
                assert(text.skip(1).skip(j) =~= text.skip(j + 1));
                assert(anchored_at(text, at_line_start, j + 1));
                assert(false);
            }
        }
        lemma_subst_no_anchored_marker(text.skip(1), text[0] == '\n', repl);
        assert(subst_from(text, at_line_start, repl) =~= text);
    }
}

/// Law: a text in which the marker does not occur at all comes back from
/// substitution unchanged, whatever the replacement.
pub proof fn lemma_no_marker_unchanged(text: Seq<char>, repl: Seq<char>)
    requires
        !contains_marker(text),
    ensures
        substituted(text, repl) == text,
{
    assert(!has_anchored_marker(text)) by {
        if has_anchored_marker(text) {
            let i = choose|i: int| #[trigger] anchored_at(text, true, i);
            assert(marker_occurrence_at(text, i));
        }
    }
    lemma_subst_no_anchored_marker(text, true, repl);
}

/// Law: removing page breaks is idempotent wherever a first removal leaves
/// no line-anchored marker occurrence behind. (Removal can uncover one:
/// with two adjacent markers at a line start, the first removal leaves the
/// second marker standing at the line start, and a second removal takes it
/// too; such inputs are excluded here and nothing else is.)
pub proof fn lemma_remove_idempotent(text: Seq<char>)
    requires
        !has_anchored_marker(substituted(text, Seq::empty())),
    ensures
        substituted(substituted(text, Seq::empty()), Seq::empty()) == substituted(
            text,
            Seq::empty(),
        ),
{
    lemma_subst_no_anchored_marker(substituted(text, Seq::empty()), true, Seq::empty());
}

/// Replace every line-anchored occurrence of the marker token by the HTML
/// page-break fragment [`HTML_BREAK`].
pub fn replace_html_page_breaks(input: &str) -> (r: String)
    ensures
        r@ == substituted(input@, html_break()),
{
    replace_page_breaks(input, HTML_BREAK)
}

/// Remove every line-anchored occurrence of the marker token.
pub fn remove_page_breaks(input: &str) -> (r: String)
    ensures
        r@ == substituted(input@, Seq::empty()),
{
    let r = replace_page_breaks(input, "");
    proof {
        reveal_strlit("");
        assert(""@ =~= Seq::<char>::empty());
    }
    r
}

} // verus!
