use vstd::prelude::*;
use crate::text::{chars_of, push_all, slice_chars, string_of};

verus! {

// A selection in a note's body is a pair of character positions (the two
// ends of the selection, in either order). Positions past the end of the text
// stand for its end, as `chars().skip(..)` and `chars().take(..)` read them.

pub open spec fn sel_start(a: int, b: int) -> int {
    if a <= b { a } else { b }
}

pub open spec fn sel_end(a: int, b: int) -> int {
    if a <= b { b } else { a }
}

/// A position clamped to the end of a text of length `len`.
pub open spec fn clamp(i: int, len: int) -> int {
    if i <= len { i } else { len }
}

/// The selected text; none where the two ends coincide.
pub open spec fn selection_of(text: Seq<char>, a: int, b: int) -> Option<Seq<char>> {
    if a == b {
        None
    } else {
        Some(
            text.subrange(
                clamp(sel_start(a, b), text.len() as int),
                clamp(sel_end(a, b), text.len() as int),
            ),
        )
    }
}

/// The text with its selection replaced by `ins`.
pub open spec fn spliced(text: Seq<char>, a: int, b: int, ins: Seq<char>) -> Seq<char> {
    text.take(clamp(sel_start(a, b), text.len() as int)) + ins + text.skip(
        clamp(sel_end(a, b), text.len() as int),
    )
}

/// The two ends of a selection, the smaller first.
pub fn selection_bounds(a: usize, b: usize) -> (r: (usize, usize))
    ensures
        r.0 == sel_start(a as int, b as int),
        r.1 == sel_end(a as int, b as int),
{
    if a <= b {
        (a, b)
    } else {
        (b, a)
    }
}

/// The number of characters of a note's body.
pub fn char_count(text: &str) -> (n: usize)
    ensures
        n == text@.len(),
{
    let v = chars_of(text);
    v.len()
}

/// The text between the ends `a` and `b` of a selection, for copying and
/// cutting; `None` where nothing is selected.
pub fn selected_text(text: &str, a: usize, b: usize) -> (r: Option<String>)
    ensures
        match r {
            Some(s) => selection_of(text@, a as int, b as int) == Some(s@),
            None => selection_of(text@, a as int, b as int) is None,
        },
{
    let (lo, hi) = selection_bounds(a, b);
    if lo == hi {
        return None;
    }
    let v = chars_of(text);
    let n = v.len();
    let s = if lo <= n { lo } else { n };
    let e = if hi <= n { hi } else { n };
    let sel = slice_chars(&v, s, e);
    Some(string_of(&sel))
}

/// Whether a selection holds at least one character: copy and cut are
/// offered only then.
pub fn has_selection(text: &str, a: usize, b: usize) -> (r: bool)
    ensures
        r == (selection_of(text@, a as int, b as int) matches Some(s) && s.len() > 0),
{
    match selected_text(text, a, b) {
        Some(s) => char_count(s.as_str()) > 0,
        None => false,
    }
}

/// `text` with the selection `a`..`b` replaced by `ins`.
fn splice(text: &str, a: usize, b: usize, ins: &Vec<char>) -> (r: Vec<char>)
    ensures
        r@ == spliced(text@, a as int, b as int, ins@),
{
    let (lo, hi) = selection_bounds(a, b);
    let v = chars_of(text);
    let n = v.len();
    let s = if lo <= n { lo } else { n };
    let e = if hi <= n { hi } else { n };
    let mut out = slice_chars(&v, 0, s);
    push_all(&mut out, ins);
    let tail = slice_chars(&v, e, n);
    push_all(&mut out, &tail);
    assert(v@.subrange(0, s as int) =~= v@.take(s as int));
    assert(v@.subrange(e as int, n as int) =~= v@.skip(e as int));
    out
}

/// Cuts the selection out of `text`: the text that is left, and the cursor
/// position, where the selection started.
pub fn cut_selection(text: &str, a: usize, b: usize) -> (r: (String, usize))
    ensures
        r.0@ == spliced(text@, a as int, b as int, Seq::<char>::empty()),
        r.1 == sel_start(a as int, b as int),
{
    let (lo, _hi) = selection_bounds(a, b);
    let empty: Vec<char> = Vec::new();
    let out = splice(text, a, b, &empty);
    (string_of(&out), lo)
}

/// Pastes `clip` over the selection `a`..`b` of `text`: the new text, and the
/// cursor position, just after the pasted text.
pub fn paste_text(text: &str, a: usize, b: usize, clip: &str) -> (r: (String, usize))
    requires
        sel_start(a as int, b as int) + clip@.len() <= usize::MAX,
    ensures
        r.0@ == spliced(text@, a as int, b as int, clip@),
        r.1 == sel_start(a as int, b as int) + clip@.len(),
{
    let (lo, _hi) = selection_bounds(a, b);
    let c = chars_of(clip);
    let out = splice(text, a, b, &c);
    (string_of(&out), lo + c.len())
}

/// The selection that covers the whole text ("select all").
pub fn select_all(text: &str) -> (r: (usize, usize))
    ensures
        r.0 == 0,
        r.1 == text@.len(),
{
    (0, char_count(text))
}

// ---------------------------------------------------------------------------
// Which selection the editor keeps and uses
// ---------------------------------------------------------------------------

/// A selection that selects nothing: none at all, or its two ends coincide.
pub open spec fn collapsed(r: Option<(usize, usize)>) -> bool {
    match r {
        None => true,
        Some(p) => p.0 == p.1,
    }
}

/// Whether the selection `r` selects nothing.
pub fn is_collapsed(r: Option<(usize, usize)>) -> (b: bool)
    ensures
        b == collapsed(r),
{
    match r {
        None => true,
        Some(p) => p.0 == p.1,
    }
}

/// The selection to remember as the last real one: the current selection
/// where it selects something.
pub fn selection_to_remember(current: Option<(usize, usize)>) -> (r: Option<(usize, usize)>)
    ensures
        r == (if collapsed(current) { None } else { current }),
{
    if is_collapsed(current) {
        None
    } else {
        current
    }
}

/// On a right click, the selection to put back: the remembered one, where
/// the click has just collapsed the current selection.
pub fn selection_to_restore(current: Option<(usize, usize)>, remembered: Option<(usize, usize)>) -> (r:
    Option<(usize, usize)>)
    ensures
        r == (if collapsed(current) { remembered } else { None }),
{
    if is_collapsed(current) {
        remembered
    } else {
        None
    }
}

/// Where a paste goes: over the remembered selection, else over the cursor's
/// selection, else at the end of the text.
pub fn paste_range(remembered: Option<(usize, usize)>, cursor: Option<(usize, usize)>, text: &str) -> (r: (
    usize,
    usize,
))
    ensures
        r == match remembered {
            Some(p) => p,
            None => match cursor {
                Some(p) => p,
                None => (text@.len() as usize, text@.len() as usize),
            },
        },
{
    match remembered {
        Some(p) => p,
        None => match cursor {
            Some(p) => p,
            None => {
                let n = char_count(text);
                (n, n)
            },
        },
    }
}

// ---------------------------------------------------------------------------
// Laws
// ---------------------------------------------------------------------------

/// Replacing a selection does not depend on the order of its ends; within the
/// text, the result keeps the text before the selection, then the inserted
/// text, then the text after the selection, so the selected characters are
/// gone and the length changes by the inserted length less the selected one.
pub proof fn law_splice_replaces_selection(text: Seq<char>, a: int, b: int, ins: Seq<char>)
    requires
        0 <= a <= text.len(),
        0 <= b <= text.len(),
    ensures
        spliced(text, a, b, ins) == spliced(text, b, a, ins),
        selection_of(text, a, b) == selection_of(text, b, a),
        ({
            let lo = if a <= b { a } else { b };
            let hi = if a <= b { b } else { a };
            let r = spliced(text, a, b, ins);
            &&& r.len() == text.len() - (hi - lo) + ins.len()
            &&& r.subrange(0, lo) == text.subrange(0, lo)
            &&& r.subrange(lo, lo + ins.len()) == ins
            &&& r.subrange(lo + ins.len(), r.len() as int) == text.subrange(hi, text.len() as int)
        }),
{
    let lo = if a <= b { a } else { b };
    let hi = if a <= b { b } else { a };
    let r = spliced(text, a, b, ins);
    assert(spliced(text, a, b, ins) =~= spliced(text, b, a, ins));
    assert(r.subrange(0, lo) =~= text.subrange(0, lo));
    assert(r.subrange(lo, lo + ins.len()) =~= ins);
    assert(r.subrange(lo + ins.len(), r.len() as int) =~= text.subrange(hi, text.len() as int));
}

/// Cutting a selection within the text and pasting what was cut back at the
/// cursor gives the text that was there before.
pub proof fn law_cut_then_paste_restores(text: Seq<char>, a: int, b: int)
    requires
        0 <= a <= text.len(),
        0 <= b <= text.len(),
    ensures
        ({
            let cut = selection_of(text, a, b);
            let rest = spliced(text, a, b, Seq::<char>::empty());
            let at = sel_start(a, b);
            a != b ==> spliced(rest, at, at, cut.unwrap()) == text
        }),
{
    let lo = sel_start(a, b);
    let hi = sel_end(a, b);
    let rest = spliced(text, a, b, Seq::<char>::empty());
    assert(rest =~= text.take(lo) + text.skip(hi));
    assert(rest.take(lo) =~= text.take(lo));
    assert(rest.skip(lo) =~= text.skip(hi));
    assert(text.take(lo) + text.subrange(lo, hi) + text.skip(hi) =~= text);
}

/// After a paste, the pasted text stands between the start of the replaced
/// selection and the new cursor position.
pub proof fn law_paste_lands_at_cursor(text: Seq<char>, a: int, b: int, clip: Seq<char>)
    requires
        0 <= a,
        0 <= b,
    ensures
        ({
            let lo = clamp(sel_start(a, b), text.len() as int);
            spliced(text, a, b, clip).subrange(lo, lo + clip.len()) == clip
        }),
{
    let lo = clamp(sel_start(a, b), text.len() as int);
    assert(spliced(text, a, b, clip).subrange(lo, lo + clip.len()) =~= clip);
}

/// "Select all" selects the whole text.
pub proof fn law_select_all_selects_text(text: Seq<char>)
    requires
        text.len() > 0,
    ensures
        selection_of(text, 0, text.len() as int) == Some(text),
{
    assert(text.subrange(0, text.len() as int) =~= text);
}

} // verus!
