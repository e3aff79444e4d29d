//! Lexical normalisation of slash-separated paths.
use vstd::prelude::*;
use crate::text::{lemma_pieces_nonempty, pieces, to_chars, to_text};

verus! {

/// The pieces of `s` between its slashes; a text without a slash is one piece.
pub open spec fn split_path(s: Seq<char>) -> Seq<Seq<char>> {
    pieces(s, '/')
}

/// A piece that names the directory it stands in: empty, or a single dot.
pub open spec fn is_current(seg: Seq<char>) -> bool {
    seg.len() == 0 || seg == seq!['.']
}

/// A piece that names the parent directory: two dots.
pub open spec fn is_parent(seg: Seq<char>) -> bool {
    seg == seq!['.', '.']
}

/// What one piece does to the names kept so far.
pub open spec fn apply_segment(kept: Seq<Seq<char>>, seg: Seq<char>) -> Seq<Seq<char>> {
    if is_current(seg) {
        kept
    } else if is_parent(seg) {
        if kept.len() > 0 {
            kept.drop_last()
        } else {
            kept
        }
    } else {
        kept.push(seg)
    }
}

/// The names that remain after every piece has been applied from left to right.
pub open spec fn resolve_segments(segs: Seq<Seq<char>>) -> Seq<Seq<char>>
    decreases segs.len(),
{
    if segs.len() == 0 {
        Seq::empty()
    } else {
        apply_segment(resolve_segments(segs.drop_last()), segs.last())
    }
}

/// The names joined by single slashes.
pub open spec fn join_segments(kept: Seq<Seq<char>>) -> Seq<char>
    decreases kept.len(),
{
    if kept.len() == 0 {
        Seq::empty()
    } else if kept.len() == 1 {
        kept[0]
    } else {
        join_segments(kept.drop_last()) + seq!['/'] + kept.last()
    }
}

/// Whether the path starts at the root.
pub open spec fn is_rooted(s: Seq<char>) -> bool {
    s.len() > 0 && s[0] == '/'
}

/// The normal form of a path: a leading slash is kept, empty and single-dot
/// pieces are dropped, and a double-dot piece removes the name before it, if
/// there is one.
pub open spec fn normalized(s: Seq<char>) -> Seq<char> {
    let body = join_segments(resolve_segments(split_path(s)));
    if is_rooted(s) {
        seq!['/'] + body
    } else {
        body
    }
}

/// The texts held by a vector of character vectors.
pub open spec fn texts(v: Seq<Vec<char>>) -> Seq<Seq<char>> {
    Seq::new(v.len(), |i: int| v[i]@)
}

/// No name that remains is empty, a single dot or a double dot.
pub proof fn lemma_resolved_names(segs: Seq<Seq<char>>, k: int)
    requires
        0 <= k < resolve_segments(segs).len(),
    ensures
        !is_current(resolve_segments(segs)[k]),
        !is_parent(resolve_segments(segs)[k]),
    decreases segs.len(),
{
    if segs.len() > 0 {
        let before = resolve_segments(segs.drop_last());
        if k < before.len() {
            lemma_resolved_names(segs.drop_last(), k);
        }
    }
}

/// A path that starts at the root still does so in its normal form.
pub proof fn lemma_root_kept(s: Seq<char>)
    requires
        is_rooted(s),
    ensures
        is_rooted(normalized(s)),
{
}

fn apply(kept: &mut Vec<Vec<char>>, seg: Vec<char>)
    ensures
        texts(final(kept)@) == apply_segment(texts(old(kept)@), seg@),
{
    let n: usize = seg.len();
    if n == 0 || (n == 1 && seg[0] == '.') {
        assert(n == 1 && seg@[0] == '.' ==> seg@ =~= seq!['.']);
    } else if n == 2 && seg[0] == '.' && seg[1] == '.' {
        assert(seg@ =~= seq!['.', '.']);
        if kept.len() > 0 {
            kept.pop();
            assert(texts(kept@) =~= texts(old(kept)@).drop_last());
        }
    } else {
        assert(!is_current(seg@)) by {
            if seg@ == seq!['.'] {
                assert(seq!['.'].len() == 1);
                assert(seq!['.'][0] == '.');
            }
        }
        assert(!is_parent(seg@)) by {
            if seg@ == seq!['.', '.'] {
                assert(seq!['.', '.'].len() == 2);
                assert(seq!['.', '.'][0] == '.');
                assert(seq!['.', '.'][1] == '.');
            }
        }
        kept.push(seg);
        assert(texts(kept@) =~= texts(old(kept)@).push(seg@));
    }
}

/// Normalises a path given as characters.
pub fn normalize_chars(s: &Vec<char>) -> (r: Vec<char>)
    ensures
        r@ == normalized(s@),
{
    let mut kept: Vec<Vec<char>> = Vec::new();
    let mut cur: Vec<char> = Vec::new();
    let mut i: usize = 0;
    assert(s@.take(0) =~= Seq::<char>::empty());
    assert(split_path(s@.take(0)).drop_last() =~= Seq::<Seq<char>>::empty());
    assert(texts(kept@) =~= Seq::<Seq<char>>::empty());
    while i < s.len()
        invariant
            i <= s.len(),
            cur@ == split_path(s@.take(i as int)).last(),
            texts(kept@) == resolve_segments(split_path(s@.take(i as int)).drop_last()),
        decreases s.len() - i,
    {
        let c = s[i];
        proof {
            let before = s@.take(i as int);
            let after = s@.take(i + 1);
            assert(after.drop_last() =~= before);
            assert(after.last() == c);
            lemma_pieces_nonempty(before, '/');
            let p = split_path(before);
            if c == '/' {
                assert(split_path(after).drop_last() =~= p);
            } else {
                assert(split_path(after).drop_last() =~= p.drop_last());
            }
        }
        if c == '/' {
            apply(&mut kept, cur);
            cur = Vec::new();
        } else {
            cur.push(c);
        }
        i = i + 1;
    }
    proof {
        assert(s@.take(s.len() as int) =~= s@);
        lemma_pieces_nonempty(s@, '/');
    }
    apply(&mut kept, cur);
    let mut r: Vec<char> = Vec::new();
    if s.len() > 0 && s[0] == '/' {
        r.push('/');
    }
    let ghost head = r@;
    let mut k: usize = 0;
    while k < kept.len()
        invariant
            k <= kept.len(),
            r@ == head + join_segments(texts(kept@).take(k as int)),
        decreases kept.len() - k,
    {
        proof {
            let t = texts(kept@);
            assert(t.take(k + 1).drop_last() =~= t.take(k as int));
            assert(t.take(k + 1).last() == kept@[k as int]@);
        }
        if k > 0 {
            r.push('/');
        }
        let seg = &kept[k];
        let mut j: usize = 0;
        let ghost base = r@;
        while j < seg.len()
            invariant
                j <= seg.len(),
                r@ == base + seg@.take(j as int),
            decreases seg.len() - j,
        {
            r.push(seg[j]);
            j = j + 1;
            assert(r@ =~= base + seg@.take(j as int));
        }
        assert(seg@.take(seg.len() as int) =~= seg@);
        k = k + 1;
        assert(r@ =~= head + join_segments(texts(kept@).take(k as int)));
    }
    assert(texts(kept@).take(kept.len() as int) =~= texts(kept@));
    assert(r@ =~= normalized(s@));
    r
}

/// Normalises a slash-separated path without looking at any file system.
pub fn parse_path(path: &str) -> (r: String)
    ensures
        r@ == normalized(path@),
{
    let chars = to_chars(path);
    let out = normalize_chars(&chars);
    to_text(&out)
}

} // verus!
