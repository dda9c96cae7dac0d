//! Inline references: finding the placeholders `{ref: key}` in running text
//! and putting the phrase for the figure or table of that key in their place.
//!
//! A placeholder is the five characters `{ref:`, then any characters but `}`,
//! then `}`. Its key is what stands between, without the white space at
//! either end. A text is scanned once from left to right; what was put in
//! place of a placeholder is not scanned again.

use vstd::prelude::*;
use crate::diagnostics::{Diagnostic, DiagnosticView};
use crate::document::{lemma_views_push, views};
use crate::image_reference_collector::{ImageReferenceCollector, ReferenceMap};
use crate::node::Node;
use crate::text::{
    append_range,
    append_str,
    chars_of,
    string_of,
    string_of_range,
    trim_range,
    trimmed,
};

verus! {

/// Whether the five characters `{ref:` stand at `i`.
pub open spec fn opens_at(text: Seq<char>, i: int) -> bool {
    &&& 0 <= i
    &&& i + 5 <= text.len()
    &&& text[i] == '{'
    &&& text[i + 1] == 'r'
    &&& text[i + 2] == 'e'
    &&& text[i + 3] == 'f'
    &&& text[i + 4] == ':'
}

/// Whether `text[start..end]` is a placeholder: it opens with `{ref:` and
/// ends with the first `}` after that.
pub open spec fn is_token(text: Seq<char>, start: int, end: int) -> bool {
    &&& opens_at(text, start)
    &&& start + 5 < end <= text.len()
    &&& text[end - 1] == '}'
    &&& forall|k: int| start + 5 <= k < end - 1 ==> text[k] != '}'
}

/// Whether `text[start..end]` is a placeholder and the only place of the text
/// at which `{ref:` stands: the text is some text without `{ref:`, then the
/// placeholder, then more text without `{ref:`.
pub open spec fn is_sole_token(text: Seq<char>, start: int, end: int) -> bool {
    &&& is_token(text, start, end)
    &&& forall|i: int| 0 <= i < start ==> !opens_at(text, i)
    &&& forall|i: int| end <= i ==> !opens_at(text, i)
}

/// The text with the word "Figure" and a number in place of `text[start..end]`.
pub open spec fn with_figure(text: Seq<char>, start: int, end: int, number: usize) -> Seq<char> {
    text.subrange(0, start) + ("Figure "@ + crate::text::decimal(number as nat)) + text.subrange(
        end,
        text.len() as int,
    )
}

/// The key of the placeholder `text[start..end]`.
pub open spec fn key_of(text: Seq<char>, start: int, end: int) -> Seq<char> {
    trimmed(text.subrange(start + 5, end - 1))
}

/// The index of the first `}` at or after `from`; the length of the text
/// where there is none.
pub open spec fn first_close(text: Seq<char>, from: int) -> int
    decreases text.len() - from,
{
    if from < 0 || from >= text.len() {
        text.len() as int
    } else if text[from] == '}' {
        from
    } else {
        first_close(text, from + 1)
    }
}

/// The bounds of the leftmost placeholder that starts at or after `from`.
pub open spec fn next_token(text: Seq<char>, from: int) -> Option<(int, int)>
    decreases text.len() - from,
{
    if from < 0 || from + 5 >= text.len() {
        None
    } else if opens_at(text, from) && first_close(text, from + 5) < text.len() {
        Some((from, first_close(text, from + 5) + 1))
    } else {
        next_token(text, from + 1)
    }
}

/// What stands in the resolved text for the placeholder `text[start..end]`:
/// the phrase for its key, or the placeholder itself where the key is
/// unknown.
pub open spec fn rendering(text: Seq<char>, refs: ReferenceMap, start: int, end: int) -> Seq<
    char,
> {
    match refs.label(key_of(text, start, end)) {
        Some(label) => label,
        None => text.subrange(start, end),
    }
}

/// `text[from..]` with its placeholders resolved.
pub open spec fn resolved_from(text: Seq<char>, refs: ReferenceMap, from: int) -> Seq<char>
    decreases text.len() - from,
{
    if from < 0 || from > text.len() {
        Seq::empty()
    } else {
        match next_token(text, from) {
            Some((start, end)) => if from <= start < end <= text.len() {
                text.subrange(from, start) + rendering(text, refs, start, end) + resolved_from(
                    text,
                    refs,
                    end,
                )
            } else {
                Seq::empty()
            },
            None => text.subrange(from, text.len() as int),
        }
    }
}

/// `text` with its placeholders resolved.
pub open spec fn resolved(text: Seq<char>, refs: ReferenceMap) -> Seq<char> {
    resolved_from(text, refs, 0)
}

/// What resolving `text[from..]` notes: each placeholder that the scan meets
/// and whose key is unknown, in order.
pub open spec fn unresolved_from(text: Seq<char>, refs: ReferenceMap, from: int) -> Seq<
    DiagnosticView,
>
    decreases text.len() - from,
{
    if from < 0 || from > text.len() {
        Seq::empty()
    } else {
        match next_token(text, from) {
            Some((start, end)) => if from <= start < end <= text.len() {
                (if refs.label(key_of(text, start, end)) is None {
                    seq![
                        DiagnosticView::UnresolvedReferencePlaceholder {
                            key: key_of(text, start, end),
                        },
                    ]
                } else {
                    Seq::empty()
                }) + unresolved_from(text, refs, end)
            } else {
                Seq::empty()
            },
            None => Seq::empty(),
        }
    }
}

/// What resolving `text` notes.
pub open spec fn unresolved(text: Seq<char>, refs: ReferenceMap) -> Seq<DiagnosticView> {
    unresolved_from(text, refs, 0)
}

/// `first_close` finds the first `}` at or after `from`.
pub proof fn lemma_first_close(text: Seq<char>, from: int)
    requires
        0 <= from <= text.len(),
    ensures
        from <= first_close(text, from) <= text.len(),
        first_close(text, from) < text.len() ==> text[first_close(text, from)] == '}',
        forall|k: int| from <= k < first_close(text, from) ==> text[k] != '}',
    decreases text.len() - from,
{
    if from < text.len() && text[from] != '}' {
        lemma_first_close(text, from + 1);
    }
}

/// Where no `}` stands at or after `from`, none stands at or after any later
/// index.
pub proof fn lemma_no_close_later(text: Seq<char>, from: int, later: int)
    requires
        0 <= from <= later,
        first_close(text, from) >= text.len(),
    ensures
        first_close(text, later) >= text.len(),
    decreases later - from,
{
    if later <= text.len() {
        lemma_first_close(text, from);
        lemma_first_close(text, later);
    }
}

/// Where no `}` stands at or after `close`, no placeholder starts at or after
/// `from`, for any `from` with `from + 5 >= close`.
pub proof fn lemma_no_close_no_token(text: Seq<char>, close: int, from: int)
    requires
        0 <= close <= from + 5,
        0 <= from,
        first_close(text, close) >= text.len(),
    ensures
        next_token(text, from) is None,
    decreases text.len() - from,
{
    if from + 5 < text.len() {
        lemma_no_close_later(text, close, from + 5);
        lemma_no_close_no_token(text, close, from + 1);
    }
}

/// What `next_token` finds is a placeholder, and the leftmost one from `from`
/// on; where it finds none, there is none.
pub proof fn lemma_next_token(text: Seq<char>, from: int)
    requires
        0 <= from,
    ensures
        match next_token(text, from) {
            Some((start, end)) => {
                &&& from <= start
                &&& is_token(text, start, end)
                &&& forall|s: int, e: int| from <= s < start ==> !is_token(text, s, e)
            },
            None => forall|s: int, e: int| from <= s ==> !is_token(text, s, e),
        },
    decreases text.len() - from,
{
    if from + 5 < text.len() {
        lemma_first_close(text, from + 5);
        if !(opens_at(text, from) && first_close(text, from + 5) < text.len()) {
            lemma_next_token(text, from + 1);
            assert forall|s: int, e: int| from <= s < from + 1 implies !is_token(text, s, e) by {
                assert(s == from);
            }
        }
    }
}

/// A placeholder spans at least six characters and lies within the text.
pub proof fn lemma_next_token_bounds(text: Seq<char>, from: int)
    requires
        0 <= from,
    ensures
        next_token(text, from) matches Some((start, end)) ==> from <= start && start + 5 < end
            <= text.len(),
{
    lemma_next_token(text, from);
}

/// The placeholder that starts a text is the one that `next_token` finds
/// first.
pub proof fn lemma_token_at_start(text: Seq<char>, end: int)
    requires
        is_token(text, 0, end),
    ensures
        next_token(text, 0) == Some((0int, end)),
{
    lemma_first_close(text, 5);
}

/// Where no placeholder of a text has a known key, resolving it changes
/// nothing from any index on.
pub proof fn lemma_unknown_keys_from(text: Seq<char>, refs: ReferenceMap, from: int)
    requires
        0 <= from <= text.len(),
        forall|s: int, e: int| #[trigger]
            is_token(text, s, e) ==> refs.label(key_of(text, s, e)) is None,
    ensures
        resolved_from(text, refs, from) == text.subrange(from, text.len() as int),
    decreases text.len() - from,
{
    lemma_next_token(text, from);
    match next_token(text, from) {
        Some((start, end)) => {
            lemma_unknown_keys_from(text, refs, end);
        },
        None => {},
    }
}

/// A text whose placeholders all have unknown keys is resolved to itself:
/// each placeholder stays as it is written.
pub proof fn lemma_unknown_keys_stay(text: Seq<char>, refs: ReferenceMap)
    requires
        forall|s: int, e: int| #[trigger]
            is_token(text, s, e) ==> refs.label(key_of(text, s, e)) is None,
    ensures
        resolved(text, refs) == text,
{
    lemma_unknown_keys_from(text, refs, 0);
}

/// A text without any placeholder is resolved to itself.
pub proof fn lemma_no_placeholder_unchanged(text: Seq<char>, refs: ReferenceMap)
    requires
        forall|s: int, e: int| !is_token(text, s, e),
    ensures
        resolved(text, refs) == text,
{
    lemma_unknown_keys_stay(text, refs);
}

/// The first placeholder of a text is resolved where it stands: where
/// `{ref:` stands nowhere before the placeholder `text[start..end]`, the
/// resolved text is what comes before it, unchanged, then what stands for
/// the placeholder, then the rest of the text, resolved.
pub proof fn lemma_first_placeholder(text: Seq<char>, refs: ReferenceMap, start: int, end: int)
    requires
        is_token(text, start, end),
        forall|i: int| 0 <= i < start ==> !opens_at(text, i),
    ensures
        next_token(text, 0) == Some((start, end)),
        resolved(text, refs) == text.subrange(0, start) + rendering(text, refs, start, end)
            + resolved_from(text, refs, end),
{
    lemma_next_token(text, 0);
    lemma_first_close(text, start + 5);
}

/// Where `{ref:` stands nowhere from `from` on, resolving changes nothing
/// from there on and notes nothing.
pub proof fn lemma_no_opening_unchanged(text: Seq<char>, refs: ReferenceMap, from: int)
    requires
        0 <= from <= text.len(),
        forall|i: int| from <= i ==> !opens_at(text, i),
    ensures
        resolved_from(text, refs, from) == text.subrange(from, text.len() as int),
        unresolved_from(text, refs, from) == Seq::<DiagnosticView>::empty(),
{
    lemma_next_token(text, from);
}

/// A reference in running text resolves where it stands: where the
/// placeholder `text[start..end]` is the only place of the text at which
/// `{ref:` stands, and the figure namespace knows its key, the resolved text
/// is what comes before the placeholder, the word "Figure" and the number of
/// the key, and what comes after the placeholder, both unchanged.
pub proof fn lemma_reference_in_text(text: Seq<char>, refs: ReferenceMap, start: int, end: int)
    requires
        is_sole_token(text, start, end),
        refs.figures.contains_key(key_of(text, start, end)),
    ensures
        resolved(text, refs) == with_figure(
            text,
            start,
            end,
            refs.figures[key_of(text, start, end)],
        ),
        unresolved(text, refs) == Seq::<DiagnosticView>::empty(),
{
    lemma_first_placeholder(text, refs, start, end);
    lemma_no_opening_unchanged(text, refs, end);
    assert(unresolved(text, refs) =~= Seq::<DiagnosticView>::empty());
}

/// A text that is one placeholder, for a key that the figure namespace knows,
/// is resolved to the word "Figure" and the number of that key.
pub proof fn lemma_figure_placeholder(text: Seq<char>, refs: ReferenceMap)
    requires
        is_token(text, 0, text.len() as int),
        refs.figures.contains_key(key_of(text, 0, text.len() as int)),
    ensures
        resolved(text, refs) == refs.label(key_of(text, 0, text.len() as int))->0,
        refs.label(key_of(text, 0, text.len() as int)) == Some(
            "Figure "@ + crate::text::decimal(
                refs.figures[key_of(text, 0, text.len() as int)] as nat,
            ),
        ),
{
    let n = text.len() as int;
    lemma_token_at_start(text, n);
    assert(resolved_from(text, refs, n) =~= Seq::<char>::empty());
}

/// Resolving asks the reference map for its two namespaces only: maps with
/// the same namespaces resolve a text alike.
pub proof fn lemma_resolved_by_namespaces(
    text: Seq<char>,
    refs: ReferenceMap,
    other: ReferenceMap,
    from: int,
)
    requires
        refs.figures == other.figures,
        refs.tables == other.tables,
    ensures
        resolved_from(text, refs, from) == resolved_from(text, other, from),
    decreases text.len() - from,
{
    if 0 <= from <= text.len() {
        match next_token(text, from) {
            Some((start, end)) => {
                if from <= start < end <= text.len() {
                    lemma_resolved_by_namespaces(text, refs, other, end);
                }
            },
            None => {},
        }
    }
}

/// A second image with a known key changes no reference: every text resolves
/// after it as it did before, so a placeholder for the key still gets the
/// number of the first image.
pub proof fn lemma_second_registration_rejected(
    text: Seq<char>,
    refs: ReferenceMap,
    key: Seq<char>,
)
    requires
        refs.figures.contains_key(key),
    ensures
        refs.with_image(Some(key)).figures == refs.figures,
        resolved(text, refs.with_image(Some(key))) == resolved(text, refs),
{
    lemma_resolved_by_namespaces(text, refs.with_image(Some(key)), refs, 0);
}

/// A reference to a figure resolves to the number that the first pass gave
/// it, wherever in the document the figure stands: where the first pass
/// meets, anywhere in `tree`, an image with the key of the placeholder
/// `text`, the pass registers the key, and `text` resolves to the word
/// "Figure" and the number registered.
pub proof fn lemma_figure_reference_resolves(refs: ReferenceMap, tree: Node, text: Seq<char>)
    requires
        refs.wf(),
        refs.image_count + tree.node_count() <= usize::MAX,
        refs.table_count + tree.node_count() <= usize::MAX,
        is_token(text, 0, text.len() as int),
        ReferenceMap::meets_image(tree, key_of(text, 0, text.len() as int)),
    ensures
        refs.collect(tree).figures.contains_key(key_of(text, 0, text.len() as int)),
        resolved(text, refs.collect(tree)) == "Figure "@ + crate::text::decimal(
            refs.collect(tree).figures[key_of(text, 0, text.len() as int)] as nat,
        ),
{
    let key = key_of(text, 0, text.len() as int);
    refs.lemma_met_image_registered(tree, key);
    lemma_figure_placeholder(text, refs.collect(tree));
}

/// The number that a key has is the one that every later reference gets: a
/// key that is known before the first pass walks on keeps its number, so a
/// placeholder for it resolves to that number whatever the pass meets
/// afterwards, an image with the same key included.
pub proof fn lemma_first_registration_wins(refs: ReferenceMap, tree: Node, text: Seq<char>)
    requires
        refs.wf(),
        refs.image_count + tree.node_count() <= usize::MAX,
        refs.table_count + tree.node_count() <= usize::MAX,
        is_token(text, 0, text.len() as int),
        refs.figures.contains_key(key_of(text, 0, text.len() as int)),
    ensures
        resolved(text, refs.collect(tree)) == "Figure "@ + crate::text::decimal(
            refs.figures[key_of(text, 0, text.len() as int)] as nat,
        ),
{
    refs.lemma_collect(tree);
    lemma_figure_placeholder(text, refs.collect(tree));
}

/// Finds the leftmost placeholder that starts at or after `from`.
pub fn find_token(text: &Vec<char>, from: usize) -> (found: Option<(usize, usize)>)
    requires
        from <= text.len(),
    ensures
        match found {
            Some((start, end)) => next_token(text@, from as int) == Some(
                (start as int, end as int),
            ),
            None => next_token(text@, from as int) is None,
        },
{
    let n = text.len();
    let mut i: usize = from;
    while n - i > 5
        invariant
            from <= i <= n,
            n == text.len(),
            next_token(text@, from as int) == next_token(text@, i as int),
        decreases n - i,
    {
        if text[i] == '{' && text[i + 1] == 'r' && text[i + 2] == 'e' && text[i + 3] == 'f' && text[i
            + 4] == ':' {
            let mut j: usize = i + 5;
            while j < n && text[j] != '}'
                invariant
                    i + 5 <= j <= n,
                    n == text.len(),
                    first_close(text@, i + 5) == first_close(text@, j as int),
                decreases n - j,
            {
                j = j + 1;
            }
            if j < n {
                return Some((i, j + 1));
            } else {
                proof {
                    lemma_no_close_no_token(text@, i + 5, i as int);
                }
                return None;
            }
        }
        i = i + 1;
    }
    None
}

/// Resolves the placeholders of `text` against what the first pass has
/// collected.
pub fn resolve_references(text: &str, refs: &ImageReferenceCollector) -> (result: String)
    ensures
        result@ == resolved(text@, refs@),
        (forall|s: int, e: int| !is_token(text@, s, e)) ==> result@ == text@,
        (forall|s: int, e: int| #[trigger]
            is_token(text@, s, e) ==> refs@.label(key_of(text@, s, e)) is None) ==> result@
            == text@,
        forall|s: int, e: int| #[trigger]
            is_sole_token(text@, s, e) && refs@.figures.contains_key(key_of(text@, s, e))
                ==> result@ == with_figure(text@, s, e, refs@.figures[key_of(text@, s, e)]),
{
    let mut reports: Vec<Diagnostic> = Vec::new();
    resolve_noting(text, refs, &mut reports)
}

/// Resolves the placeholders of `text` against what the first pass has
/// collected, and notes in `reports` each placeholder that it leaves as
/// written because its key is unknown.
pub fn resolve_noting(
    text: &str,
    refs: &ImageReferenceCollector,
    reports: &mut Vec<Diagnostic>,
) -> (result: String)
    ensures
        result@ == resolved(text@, refs@),
        views(final(reports)@) == views(old(reports)@) + unresolved(text@, refs@),
        (forall|s: int, e: int| !is_token(text@, s, e)) ==> result@ == text@,
        (forall|s: int, e: int| #[trigger]
            is_token(text@, s, e) ==> refs@.label(key_of(text@, s, e)) is None) ==> result@
            == text@,
        forall|s: int, e: int| #[trigger]
            is_sole_token(text@, s, e) && refs@.figures.contains_key(key_of(text@, s, e))
                ==> result@ == with_figure(text@, s, e, refs@.figures[key_of(text@, s, e)]),
{
    proof {
        if forall|s: int, e: int| #[trigger]
            is_token(text@, s, e) ==> refs@.label(key_of(text@, s, e)) is None {
            lemma_unknown_keys_stay(text@, refs@);
        }
        assert forall|s: int, e: int| #[trigger]
            is_sole_token(text@, s, e) && refs@.figures.contains_key(
                key_of(text@, s, e),
            ) implies resolved(text@, refs@) == with_figure(
            text@,
            s,
            e,
            refs@.figures[key_of(text@, s, e)],
        ) by {
            lemma_reference_in_text(text@, refs@, s, e);
        }
    }
    let chars = chars_of(text);
    let n = chars.len();
    let mut out: Vec<char> = Vec::new();
    let mut cursor: usize = 0;
    let mut done = false;
    while !done
        invariant
            cursor <= n,
            n == chars.len(),
            chars@ == text@,
            !done ==> out@ + resolved_from(chars@, refs@, cursor as int) == resolved(
                chars@,
                refs@,
            ),
            !done ==> views(reports@) + unresolved_from(chars@, refs@, cursor as int) == views(
                old(reports)@,
            ) + unresolved(chars@, refs@),
            done ==> out@ == resolved(chars@, refs@),
            done ==> views(reports@) == views(old(reports)@) + unresolved(chars@, refs@),
        decreases n - cursor + (if done { 0int } else { 1int }),
    {
        proof {
            lemma_next_token_bounds(chars@, cursor as int);
        }
        let ghost noted = views(reports@);
        match find_token(&chars, cursor) {
            None => {
                append_range(&mut out, &chars, cursor, n);
                done = true;
                proof {
                    assert(noted + Seq::<DiagnosticView>::empty() =~= noted);
                }
            },
            Some((start, end)) => {
                append_range(&mut out, &chars, cursor, start);
                let (lo, hi) = trim_range(&chars, start + 5, end - 1);
                let key = string_of_range(&chars, lo, hi);
                match refs.get(key.as_str()) {
                    Some(label) => {
                        append_str(&mut out, label.as_str());
                        proof {
                            let rest = unresolved_from(chars@, refs@, end as int);
                            assert(noted + (Seq::<DiagnosticView>::empty() + rest) =~= noted
                                + rest);
                        }
                    },
                    None => {
                        append_range(&mut out, &chars, start, end);
                        let event = Diagnostic::UnresolvedReferencePlaceholder { key: key };
                        proof {
                            lemma_views_push(reports@, event);
                            let rest = unresolved_from(chars@, refs@, end as int);
                            assert(noted + (seq![event@] + rest) =~= noted.push(event@) + rest);
                        }
                        reports.push(event);
                    },
                }
                cursor = end;
            },
        }
    }
    string_of(&out)
}

} // verus!
