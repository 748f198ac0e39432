use vstd::prelude::*;
use crate::errors::{ModelError, ModelErrorView, ModelResult};
use crate::text::{
    split_on, split_text, trimmed, trim_text, join_with, non_empty_pieces, decimal, decimal_text,
    contains_char, has_char,
};

verus! {

/// The views of a sequence of strings.
pub open spec fn texts(v: Seq<String>) -> Seq<Seq<char>> {
    v.map_values(|p: String| p@)
}

/// The segments of a dotted path: none for the empty path, else the pieces
/// between the dots.
pub open spec fn path_segments(path: Seq<char>) -> Seq<Seq<char>> {
    if path.len() == 0 {
        Seq::empty()
    } else {
        split_on(path, '.')
    }
}

/// The path with white space trimmed at both ends, empty segments dropped,
/// and the rest joined with dots.
pub open spec fn normalized_path(path: Seq<char>) -> Seq<char> {
    join_with(non_empty_pieces(split_on(trimmed(path), '.')), '.')
}

/// A path is valid when it is not empty and none of its segments is.
pub open spec fn valid_path(path: Seq<char>) -> bool {
    path.len() > 0 && forall|i: int|
        0 <= i < path_segments(path).len() ==> (#[trigger] path_segments(path)[i]).len() > 0
}

/// The position of the first empty piece, or the number of pieces when none is empty.
pub open spec fn first_empty(pieces: Seq<Seq<char>>) -> nat
    decreases pieces.len(),
{
    if pieces.len() == 0 {
        0
    } else if pieces[0].len() == 0 {
        0
    } else {
        1 + first_empty(pieces.drop_first())
    }
}

/// The message for a path with an empty segment at `index`.
pub open spec fn empty_segment_message(path: Seq<char>, index: nat) -> Seq<char> {
    "Invalid path '"@ + path + "': empty segment at position "@ + decimal(index)
}

/// The message for a path that uses array notation.
pub open spec fn array_notation_message(path: Seq<char>) -> Seq<char> {
    "Invalid path '"@ + path + "': array notation not supported in paths"@
}

/// What validating a path for writing gives: the first problem found, or
/// nothing.  `strict` also refuses brackets in a segment.
pub open spec fn path_check(path: Seq<char>, strict: bool) -> Option<ModelErrorView> {
    let segs = path_segments(path);
    if path.len() == 0 {
        Some(ModelErrorView::InvalidData("Empty path not allowed"@))
    } else if first_empty(segs) < segs.len() {
        Some(ModelErrorView::InvalidData(empty_segment_message(path, first_empty(segs))))
    } else if strict && exists|i: int|
        0 <= i < segs.len() && (contains_char(#[trigger] segs[i], '[') || contains_char(
            segs[i],
            ']',
        )) {
        Some(ModelErrorView::InvalidData(array_notation_message(path)))
    } else {
        None
    }
}

pub proof fn lemma_first_empty(pieces: Seq<Seq<char>>, n: int)
    requires
        0 <= n <= pieces.len(),
        forall|i: int| 0 <= i < n ==> (#[trigger] pieces[i]).len() > 0,
        n < pieces.len() ==> pieces[n].len() == 0,
    ensures
        first_empty(pieces) == n,
    decreases n,
{
    if n > 0 {
        assert forall|i: int| 0 <= i < n - 1 implies (#[trigger] pieces.drop_first()[i]).len()
            > 0 by {
            assert(pieces.drop_first()[i] == pieces[i + 1]);
        }
        if n < pieces.len() {
            assert(pieces.drop_first()[n - 1] == pieces[n]);
        }
        lemma_first_empty(pieces.drop_first(), n - 1);
    }
}

/// The segments of a dotted path; none for the empty path.
pub fn parse_path(path: &str) -> (r: Vec<String>)
    ensures
        texts(r@) == path_segments(path@),
{
    if path.is_empty() {
        let r: Vec<String> = Vec::new();
        assert(texts(r@) =~= Seq::<Seq<char>>::empty());
        r
    } else {
        split_text(path, '.')
    }
}

/// The pieces of a path between its dots, an empty path giving one empty piece.
pub fn split_path(path: &str) -> (r: Vec<String>)
    ensures
        texts(r@) == split_on(path@, '.'),
{
    split_text(path, '.')
}

/// The path with white space trimmed at both ends, empty segments dropped,
/// and the rest joined with dots.
pub fn normalize_path(path: &str) -> (r: String)
    ensures
        r@ == normalized_path(path@),
{
    let t = trim_text(path);
    let pieces = split_text(t, '.');
    let ghost ps = texts(pieces@);
    let mut out = String::new();
    let mut i: usize = 0;
    let mut kept: usize = 0;
    proof {
        assert(ps.take(0) =~= Seq::<Seq<char>>::empty());
    }
    while i < pieces.len()
        invariant
            ps == texts(pieces@),
            ps.len() == pieces.len(),
            i <= pieces.len(),
            out@ == join_with(non_empty_pieces(ps.take(i as int)), '.'),
            kept == non_empty_pieces(ps.take(i as int)).len(),
            kept <= i,
        decreases pieces.len() - i,
    {
        let piece = pieces[i].as_str();
        let ghost before = non_empty_pieces(ps.take(i as int));
        proof {
            assert(ps.take(i + 1).drop_last() =~= ps.take(i as int));
            assert(ps.take(i + 1).last() == ps[i as int]);
            assert(ps[i as int] == piece@);
        }
        if !piece.is_empty() {
            if kept > 0 {
                out.append(".");
                proof {
                    reveal_strlit(".");
                }
            }
            out.append(piece);
            proof {
                let after = before.push(piece@);
                assert(after.drop_last() =~= before);
                if before.len() > 0 {
                    assert(out@ =~= join_with(before, '.') + seq!['.'] + piece@);
                } else {
                    assert(out@ =~= piece@);
                }
            }
            kept = kept + 1;
        }
        i = i + 1;
    }
    proof {
        assert(ps.take(i as int) =~= ps);
    }
    out
}

/// Whether the path is valid: not empty, and no segment empty.
pub fn is_valid_path(path: &str) -> (r: bool)
    ensures
        r == valid_path(path@),
{
    if path.is_empty() {
        return false;
    }
    let parts = parse_path(path);
    let mut i: usize = 0;
    while i < parts.len()
        invariant
            texts(parts@) == path_segments(path@),
            i <= parts.len(),
            forall|j: int| 0 <= j < i ==> (#[trigger] path_segments(path@)[j]).len() > 0,
        decreases parts.len() - i,
    {
        proof {
            assert(texts(parts@)[i as int] == parts@[i as int]@);
        }
        if parts[i].as_str().is_empty() {
            return false;
        }
        i = i + 1;
    }
    true
}

fn check_path(path: &str, strict: bool) -> (r: ModelResult<()>)
    ensures
        match path_check(path@, strict) {
            None => r is Ok,
            Some(e) => r matches Err(x) && x@ == e,
        },
{
    if path.is_empty() {
        return Err(ModelError::invalid_data("Empty path not allowed"));
    }
    let parts = parse_path(path);
    let ghost segs = path_segments(path@);
    let mut i: usize = 0;
    while i < parts.len()
        invariant
            texts(parts@) == segs,
            segs == path_segments(path@),
            segs.len() == parts.len(),
            path@.len() > 0,
            i <= parts.len(),
            forall|j: int| 0 <= j < i ==> (#[trigger] segs[j]).len() > 0,
        decreases parts.len() - i,
    {
        proof {
            assert(segs[i as int] == parts@[i as int]@);
        }
        if parts[i].as_str().is_empty() {
            proof {
                lemma_first_empty(segs, i as int);
            }
            let mut msg = String::from_str("Invalid path '");
            msg.append(path);
            msg.append("': empty segment at position ");
            let index_text = decimal_text(i);
            msg.append(index_text.as_str());
            return Err(ModelError::InvalidData(msg));
        }
        i = i + 1;
    }
    proof {
        lemma_first_empty(segs, segs.len() as int);
    }
    if strict {
        let mut j: usize = 0;
        while j < parts.len()
            invariant
                texts(parts@) == segs,
                segs == path_segments(path@),
                segs.len() == parts.len(),
                path@.len() > 0,
                first_empty(segs) == segs.len(),
                strict,
                j <= parts.len(),
                forall|k: int|
                    0 <= k < j ==> !(contains_char(#[trigger] segs[k], '[') || contains_char(
                        segs[k],
                        ']',
                    )),
            decreases parts.len() - j,
        {
            proof {
                assert(segs[j as int] == parts@[j as int]@);
            }
            if has_char(parts[j].as_str(), '[') || has_char(parts[j].as_str(), ']') {
                let mut msg = String::from_str("Invalid path '");
                msg.append(path);
                msg.append("': array notation not supported in paths");
                proof {
                    assert(contains_char(segs[j as int], '[') || contains_char(segs[j as int], ']'));
                }
                return Err(ModelError::InvalidData(msg));
            }
            j = j + 1;
        }
    }
    Ok(())
}

/// Checks a path for writing: it must not be empty, and no segment may be.
pub fn validate_path_for_setting(path: &str) -> (r: ModelResult<()>)
    ensures
        match path_check(path@, false) {
            None => r is Ok,
            Some(e) => r matches Err(x) && x@ == e,
        },
{
    check_path(path, false)
}

/// Checks a path for writing as `validate_path_for_setting` does, and also
/// refuses array notation: a `[` or `]` in a segment.
pub fn validate_path_for_setting_strict(path: &str) -> (r: ModelResult<()>)
    ensures
        match path_check(path@, true) {
            None => r is Ok,
            Some(e) => r matches Err(x) && x@ == e,
        },
{
    check_path(path, true)
}

} // verus!
