//! The names of records as relative paths.
//!
//! A name may nest directories with `/` or with `\`, whichever the archive
//! was written with. Both separate components here, on every platform.

use vstd::prelude::*;
use vstd::string::StrSliceExecFns;

verus! {

/// Whether `c` separates the components of a path.
pub open spec fn is_separator(c: char) -> bool {
    c == '/' || c == '\\'
}

/// The characters of `name` behind its last separator.
pub open spec fn last_piece(name: Seq<char>) -> Seq<char>
    decreases name.len(),
{
    if name.len() == 0 || is_separator(name.last()) {
        Seq::empty()
    } else {
        last_piece(name.drop_last()).push(name.last())
    }
}

/// The components of `name` that a separator ends, in order. Empty
/// stretches between separators are no components.
pub open spec fn closed_pieces(name: Seq<char>) -> Seq<Seq<char>>
    decreases name.len(),
{
    if name.len() == 0 {
        Seq::empty()
    } else if is_separator(name.last()) && last_piece(name.drop_last()).len() > 0 {
        closed_pieces(name.drop_last()).push(last_piece(name.drop_last()))
    } else {
        closed_pieces(name.drop_last())
    }
}

/// The components of the path `name`: its stretches between separators that
/// are not empty, in order.
pub open spec fn components(name: Seq<char>) -> Seq<Seq<char>> {
    if last_piece(name).len() > 0 {
        closed_pieces(name).push(last_piece(name))
    } else {
        closed_pieces(name)
    }
}

/// The views of a sequence of strings.
pub open spec fn texts(strings: Seq<String>) -> Seq<Seq<char>> {
    strings.map_values(|s: String| s@)
}

/// Whether `piece` holds no separator.
pub open spec fn plain(piece: Seq<char>) -> bool {
    forall|k: int| 0 <= k < piece.len() ==> !is_separator(#[trigger] piece[k])
}

/// The last piece of a name holds no separator.
pub proof fn lemma_last_piece_plain(name: Seq<char>)
    ensures
        plain(last_piece(name)),
    decreases name.len(),
{
    if name.len() != 0 && !is_separator(name.last()) {
        lemma_last_piece_plain(name.drop_last());
        let before = last_piece(name.drop_last());
        assert forall|k: int| 0 <= k < last_piece(name).len() implies !is_separator(
            #[trigger] last_piece(name)[k],
        ) by {
            if k < before.len() {
                assert(last_piece(name)[k] == before[k]);
            }
        }
    }
}

proof fn lemma_closed_pieces_plain(name: Seq<char>)
    ensures
        forall|i: int|
            0 <= i < closed_pieces(name).len() ==> (#[trigger] closed_pieces(name)[i]).len() > 0
                && plain(closed_pieces(name)[i]),
    decreases name.len(),
{
    if name.len() != 0 {
        lemma_closed_pieces_plain(name.drop_last());
        lemma_last_piece_plain(name.drop_last());
        let before = closed_pieces(name.drop_last());
        assert forall|i: int| 0 <= i < closed_pieces(name).len() implies (#[trigger] closed_pieces(
            name,
        )[i]).len() > 0 && plain(closed_pieces(name)[i]) by {
            if i < before.len() {
                assert(closed_pieces(name)[i] == before[i]);
            }
        }
    }
}

/// No component of a path is empty, and none holds a separator.
pub proof fn lemma_components_plain(name: Seq<char>)
    ensures
        forall|i: int|
            0 <= i < components(name).len() ==> (#[trigger] components(name)[i]).len() > 0
                && plain(components(name)[i]),
{
    lemma_closed_pieces_plain(name);
    lemma_last_piece_plain(name);
    assert forall|i: int| 0 <= i < components(name).len() implies (#[trigger] components(
        name,
    )[i]).len() > 0 && plain(components(name)[i]) by {
        if i < closed_pieces(name).len() {
            assert(components(name)[i] == closed_pieces(name)[i]);
        }
    }
}

/// Splits the path `name` into its components.
pub fn path_components(name: &str) -> (parts: Vec<String>)
    ensures
        texts(parts@) == components(name@),
{
    let n: usize = name.unicode_len();
    let mut parts: Vec<String> = Vec::new();
    let mut start: usize = 0;
    let mut i: usize = 0;
    assert(name@.take(0) =~= Seq::<char>::empty());
    assert(texts(parts@) =~= closed_pieces(name@.take(0)));
    while i < n
        invariant
            n == name@.len(),
            start <= i <= n,
            texts(parts@) == closed_pieces(name@.take(i as int)),
            name@.subrange(start as int, i as int) == last_piece(name@.take(i as int)),
        decreases n - i,
    {
        let c: char = name.get_char(i);
        proof {
            let before = name@.take(i as int);
            let now = name@.take(i + 1);
            assert(now.drop_last() =~= before);
            assert(now.last() == c);
            assert(name@.subrange(start as int, i + 1) =~= name@.subrange(
                start as int,
                i as int,
            ).push(c));
            assert(name@.subrange(i + 1, i + 1) =~= Seq::<char>::empty());
        }
        if c == '/' || c == '\\' {
            if start < i {
                let piece: String = name.substring_char(start, i).to_owned();
                assert(texts(parts@.push(piece)) =~= texts(parts@).push(piece@));
                parts.push(piece);
            }
            start = i + 1;
        }
        i = i + 1;
    }
    assert(name@.take(n as int) =~= name@);
    if start < n {
        let piece: String = name.substring_char(start, n).to_owned();
        assert(texts(parts@.push(piece)) =~= texts(parts@).push(piece@));
        parts.push(piece);
    }
    parts
}

} // verus!
