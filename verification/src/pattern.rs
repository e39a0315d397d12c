use vstd::prelude::*;

verus! {

/// The character sequences of a sequence of strings.
pub open spec fn seq_views(s: Seq<String>) -> Seq<Seq<char>> {
    s.map_values(|x: String| x@)
}

/// Splits a character sequence on `/` into all its pieces, empty pieces
/// included. The result always has at least one element.
pub open spec fn split_all(s: Seq<char>) -> Seq<Seq<char>>
    decreases s.len(),
{
    if s.len() == 0 {
        seq![Seq::<char>::empty()]
    } else if s[0] == '/' {
        seq![Seq::<char>::empty()] + split_all(s.drop_first())
    } else {
        let r = split_all(s.drop_first());
        r.update(0, seq![s[0]] + r[0])
    }
}

/// A split has at least one piece.
pub proof fn lemma_split_all_len(s: Seq<char>)
    ensures
        split_all(s).len() >= 1,
    decreases s.len(),
{
    if s.len() != 0 {
        lemma_split_all_len(s.drop_first());
    }
}

/// A piece without `/` splits into itself alone.
pub proof fn lemma_split_no_slash(s: Seq<char>)
    requires
        forall|i: int| 0 <= i < s.len() ==> s[i] != '/',
    ensures
        split_all(s) =~~= seq![s],
    decreases s.len(),
{
    if s.len() == 0 {
        assert(s =~= Seq::<char>::empty());
    } else {
        lemma_split_no_slash(s.drop_first());
        lemma_split_all_len(s.drop_first());
        assert(seq![s[0]] + s.drop_first() =~= s);
    }
}

/// Splitting at the first `/` yields the prefix and the split of the rest.
pub proof fn lemma_split_at_first_slash(s: Seq<char>, k: int)
    requires
        0 <= k < s.len(),
        s[k] == '/',
        forall|i: int| 0 <= i < k ==> s[i] != '/',
    ensures
        split_all(s) =~~= seq![s.take(k)] + split_all(s.skip(k + 1)),
    decreases k,
{
    if k == 0 {
        assert(s.take(0) =~= Seq::<char>::empty());
        assert(s.skip(1) =~= s.drop_first());
    } else {
        lemma_split_at_first_slash(s.drop_first(), k - 1);
        lemma_split_all_len(s.drop_first());
        assert(s.drop_first().take(k - 1) =~= s.take(k).drop_first());
        assert(s.drop_first().skip(k) =~= s.skip(k + 1));
        assert(seq![s[0]] + s.take(k).drop_first() =~= s.take(k));
        lemma_split_all_len(s.drop_first().skip(k));
    }
}

/// The segments of a request path or route pattern. One trailing slash is
/// trimmed (so `/users/` reads as `/users`), a single leading slash is
/// dropped, and the root path `/` (or the empty path) has no segments at all.
/// Interior empty segments, as in `/a//b`, are kept as empty literals.
pub open spec fn spec_segments(path: Seq<char>) -> Seq<Seq<char>> {
    let t = if path.len() > 1 && path[path.len() - 1] == '/' {
        path.drop_last()
    } else {
        path
    };
    let u = if t.len() > 0 && t[0] == '/' {
        t.drop_first()
    } else {
        t
    };
    if u.len() == 0 {
        Seq::empty()
    } else {
        split_all(u)
    }
}

/// Splits a path into its segments, as [`spec_segments`] describes.
pub fn split_path(path: &str) -> (segs: Vec<String>)
    ensures
        seq_views(segs@) == spec_segments(path@),
{
    let n = path.unicode_len();
    let eff: usize = if n > 1 && path.get_char(n - 1) == '/' {
        n - 1
    } else {
        n
    };
    let start: usize = if eff > 0 && path.get_char(0) == '/' {
        1
    } else {
        0
    };
    let ghost u: Seq<char> = path@.subrange(start as int, eff as int);
    let mut segs: Vec<String> = Vec::new();
    if start >= eff {
        proof {
            assert(u.len() == 0);
            assert(seq_views(segs@) =~= spec_segments(path@));
        }
        return segs;
    }
    let mut piece_start: usize = start;
    let mut i: usize = start;
    while i < eff
        invariant
            start <= piece_start <= i <= eff <= n,
            n == path@.len(),
            start < eff,
            u == path@.subrange(start as int, eff as int),
            forall|k: int| piece_start <= k < i ==> path@[k] != '/',
            seq_views(segs@) + split_all(path@.subrange(piece_start as int, eff as int))
                =~~= split_all(u),
        decreases eff - i,
    {
        if path.get_char(i) == '/' {
            let piece = path.substring_char(piece_start, i).to_owned();
            proof {
                let rest = path@.subrange(piece_start as int, eff as int);
                lemma_split_at_first_slash(rest, i - piece_start);
                assert(rest.take(i - piece_start) =~= path@.subrange(
                    piece_start as int,
                    i as int,
                ));
                assert(rest.skip(i - piece_start + 1) =~= path@.subrange(
                    i as int + 1,
                    eff as int,
                ));
                assert(seq_views(segs@.push(piece)) =~= seq_views(segs@).push(piece@));
            }
            segs.push(piece);
            piece_start = i + 1;
        }
        i = i + 1;
    }
    let last = path.substring_char(piece_start, eff).to_owned();
    proof {
        let rest = path@.subrange(piece_start as int, eff as int);
        lemma_split_no_slash(rest);
        assert(seq_views(segs@.push(last)) =~= seq_views(segs@).push(last@));
    }
    segs.push(last);
    proof {
        assert(seq_views(segs@) =~~= split_all(u));
        assert(spec_segments(path@) == split_all(u)) by {
            let t = if path@.len() > 1 && path@[path@.len() - 1] == '/' {
                path@.drop_last()
            } else {
                path@
            };
            let v = if t.len() > 0 && t[0] == '/' {
                t.drop_first()
            } else {
                t
            };
            assert(v =~= u);
        }
    }
    segs
}

/// Compares two strings for equality of their character sequences.
pub fn str_eq(a: &str, b: &str) -> (r: bool)
    ensures
        r == (a@ == b@),
{
    let alen = a.unicode_len();
    let blen = b.unicode_len();
    if alen != blen {
        return false;
    }
    let mut i: usize = 0;
    while i < alen
        invariant
            0 <= i <= alen,
            alen == a@.len(),
            blen == b@.len(),
            alen == blen,
            forall|k: int| 0 <= k < i ==> a@[k] == b@[k],
        decreases alen - i,
    {
        if a.get_char(i) != b.get_char(i) {
            return false;
        }
        i = i + 1;
    }
    proof {
        assert(a@ =~= b@);
    }
    true
}

/// One segment of a route pattern: either literal text matched by equality,
/// or a named parameter that captures one path segment.
pub enum PatternSegment {
    Literal(String),
    Parameter(String),
}

/// Mathematical model of a [`PatternSegment`].
pub ghost enum SegModel {
    Literal(Seq<char>),
    Parameter(Seq<char>),
}

impl View for PatternSegment {
    type V = SegModel;

    open spec fn view(&self) -> SegModel {
        match self {
            PatternSegment::Literal(s) => SegModel::Literal(s@),
            PatternSegment::Parameter(s) => SegModel::Parameter(s@),
        }
    }
}

/// The models of a sequence of pattern segments.
pub open spec fn seg_views(p: Seq<PatternSegment>) -> Seq<SegModel> {
    p.map_values(|x: PatternSegment| x@)
}

/// How one segment of a pattern reads: text starting with the `:` sigil
/// declares a parameter named by the rest, anything else is a literal.
pub open spec fn parse_seg(s: Seq<char>) -> SegModel {
    if s.len() > 0 && s[0] == ':' {
        SegModel::Parameter(s.drop_first())
    } else {
        SegModel::Literal(s)
    }
}

/// The parsed form of a whole route pattern.
pub open spec fn spec_pattern(path: Seq<char>) -> Seq<SegModel> {
    spec_segments(path).map_values(|s: Seq<char>| parse_seg(s))
}

/// Parses a route pattern into its segments, as [`spec_pattern`] describes.
pub fn parse_pattern(path: &str) -> (p: Vec<PatternSegment>)
    ensures
        seg_views(p@) == spec_pattern(path@),
{
    let segs = split_path(path);
    let mut p: Vec<PatternSegment> = Vec::new();
    let mut i: usize = 0;
    while i < segs.len()
        invariant
            0 <= i <= segs@.len(),
            seg_views(p@) =~~= seq_views(segs@).take(i as int).map_values(
                |s: Seq<char>| parse_seg(s),
            ),
        decreases segs@.len() - i,
    {
        let s = &segs[i];
        let len = s.as_str().unicode_len();
        let seg = if len > 0 && s.as_str().get_char(0) == ':' {
            PatternSegment::Parameter(s.as_str().substring_char(1, len).to_owned())
        } else {
            PatternSegment::Literal(s.clone())
        };
        proof {
            assert(seg@ == parse_seg(s@));
            assert(seq_views(segs@).take(i + 1) =~= seq_views(segs@).take(i as int).push(s@));
            assert(seg_views(p@.push(seg)) =~= seg_views(p@).push(seg@));
            assert(seq_views(segs@).take(i as int).map_values(|x: Seq<char>| parse_seg(x)).push(
                parse_seg(s@),
            ) =~= seq_views(segs@).take(i + 1).map_values(|x: Seq<char>| parse_seg(x)));
        }
        p.push(seg);
        i = i + 1;
    }
    proof {
        assert(seq_views(segs@).take(segs@.len() as int) =~= seq_views(segs@));
    }
    p
}

} // verus!
