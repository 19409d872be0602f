use vstd::prelude::*;

use crate::text::{chars_of, lemma_seq_less_total, lemma_seq_less_transitive, order_str, seq_less, string_from_chars, Order};

verus! {

/// One component of a Unix path, as `std::path::Component` sees it.
pub enum PathPart {
    RootDir,
    CurDir,
    ParentDir,
    Normal(Seq<char>),
}

/// One component of a Unix path.
pub enum PathComponent {
    RootDir,
    CurDir,
    ParentDir,
    Normal(String),
}

impl View for PathComponent {
    type V = PathPart;

    open spec fn view(&self) -> PathPart {
        match self {
            PathComponent::RootDir => PathPart::RootDir,
            PathComponent::CurDir => PathPart::CurDir,
            PathComponent::ParentDir => PathPart::ParentDir,
            PathComponent::Normal(s) => PathPart::Normal(s@),
        }
    }
}

/// The text between the slashes of `s`, in order (`n` slashes give
/// `n + 1` segments, some of them empty).
pub open spec fn split_slash(s: Seq<char>) -> Seq<Seq<char>>
    decreases s.len(),
{
    if s.len() == 0 {
        seq![Seq::<char>::empty()]
    } else if s.last() == '/' {
        split_slash(s.drop_last()).push(Seq::<char>::empty())
    } else {
        let p = split_slash(s.drop_last());
        p.update(p.len() - 1, p.last().push(s.last()))
    }
}

/// The component that a segment between slashes gives: none for an empty
/// segment or `.`.
pub open spec fn segment_part(seg: Seq<char>) -> Seq<PathPart> {
    if seg.len() == 0 || seg == seq!['.'] {
        Seq::<PathPart>::empty()
    } else if seg == seq!['.', '.'] {
        seq![PathPart::ParentDir]
    } else {
        seq![PathPart::Normal(seg)]
    }
}

/// The components of a list of segments.
pub open spec fn segments_parts(segs: Seq<Seq<char>>) -> Seq<PathPart>
    decreases segs.len(),
{
    if segs.len() == 0 {
        Seq::<PathPart>::empty()
    } else {
        segments_parts(segs.drop_last()) + segment_part(segs.last())
    }
}

/// The component that leads a path: the root for an absolute path, `.` for
/// a relative path that starts with it.
pub open spec fn leading_part(s: Seq<char>) -> Seq<PathPart> {
    if s.len() > 0 && s[0] == '/' {
        seq![PathPart::RootDir]
    } else if s.len() > 0 && s[0] == '.' && (s.len() == 1 || s[1] == '/') {
        seq![PathPart::CurDir]
    } else {
        Seq::<PathPart>::empty()
    }
}

/// The components of a Unix path: its leading part, then each segment
/// between slashes that is neither empty nor `.`.
pub open spec fn path_parts(s: Seq<char>) -> Seq<PathPart> {
    leading_part(s) + segments_parts(split_slash(s))
}

/// A path starts with `base` when the components of `base` begin its own.
pub open spec fn path_starts_with(path: Seq<char>, base: Seq<char>) -> bool {
    let p = path_parts(path);
    let b = path_parts(base);
    b.len() <= p.len() && p.subrange(0, b.len() as int) == b
}

/// The rank of a component's kind in component order.
pub open spec fn part_rank(p: PathPart) -> int {
    match p {
        PathPart::RootDir => 0,
        PathPart::CurDir => 1,
        PathPart::ParentDir => 2,
        PathPart::Normal(_) => 3,
    }
}

/// Component order: by kind, then normal components by their text.
pub open spec fn part_less(a: PathPart, b: PathPart) -> bool {
    part_rank(a) < part_rank(b) || match (a, b) {
        (PathPart::Normal(x), PathPart::Normal(y)) => seq_less(x, y),
        _ => false,
    }
}

/// Lexicographic order on component sequences.
pub open spec fn parts_less(a: Seq<PathPart>, b: Seq<PathPart>) -> bool
    decreases a.len(),
{
    if a.len() == 0 {
        b.len() > 0
    } else if b.len() == 0 {
        false
    } else if a[0] != b[0] {
        part_less(a[0], b[0])
    } else {
        parts_less(a.drop_first(), b.drop_first())
    }
}

/// Path order, the order of `std::path::Path`: by components.
pub open spec fn path_less(a: Seq<char>, b: Seq<char>) -> bool {
    parts_less(path_parts(a), path_parts(b))
}

/// Component order is irreflexive, total and asymmetric.
pub proof fn lemma_part_less_total(a: PathPart, b: PathPart)
    ensures
        !part_less(a, a),
        a != b ==> (part_less(a, b) || part_less(b, a)),
        !(part_less(a, b) && part_less(b, a)),
{
    match (a, b) {
        (PathPart::Normal(x), PathPart::Normal(y)) => {
            lemma_seq_less_total(x, y);
        },
        _ => {
            match a {
                PathPart::Normal(x) => lemma_seq_less_total(x, x),
                _ => {},
            }
        },
    }
}

/// Component order is transitive.
pub proof fn lemma_part_less_transitive(a: PathPart, b: PathPart, c: PathPart)
    requires
        part_less(a, b),
        part_less(b, c),
    ensures
        part_less(a, c),
{
    match (a, b, c) {
        (PathPart::Normal(x), PathPart::Normal(y), PathPart::Normal(z)) => {
            lemma_seq_less_transitive(x, y, z);
        },
        _ => {},
    }
}

/// Path order is irreflexive, total on distinct component sequences, and
/// asymmetric.
pub proof fn lemma_parts_less_total(a: Seq<PathPart>, b: Seq<PathPart>)
    ensures
        !parts_less(a, a),
        a != b ==> (parts_less(a, b) || parts_less(b, a)),
        !(parts_less(a, b) && parts_less(b, a)),
    decreases a.len(),
{
    if a.len() > 0 {
        lemma_part_less_total(a[0], a[0]);
        lemma_parts_less_total(a.drop_first(), a.drop_first());
    }
    if a.len() > 0 && b.len() > 0 {
        lemma_part_less_total(a[0], b[0]);
        lemma_parts_less_total(a.drop_first(), b.drop_first());
        if a[0] == b[0] && a != b {
            assert(a.drop_first() != b.drop_first()) by {
                if a.drop_first() == b.drop_first() {
                    assert(a =~= seq![a[0]] + a.drop_first());
                    assert(b =~= seq![b[0]] + b.drop_first());
                }
            }
        }
    } else if a.len() == 0 && b.len() == 0 {
        assert(a =~= b);
    }
}

/// Path order is transitive.
pub proof fn lemma_parts_less_transitive(a: Seq<PathPart>, b: Seq<PathPart>, c: Seq<PathPart>)
    requires
        parts_less(a, b),
        parts_less(b, c),
    ensures
        parts_less(a, c),
    decreases a.len(),
{
    if a.len() > 0 && b.len() > 0 && c.len() > 0 {
        if a[0] == b[0] && b[0] == c[0] {
            lemma_parts_less_transitive(a.drop_first(), b.drop_first(), c.drop_first());
        } else if a[0] != b[0] && b[0] != c[0] {
            lemma_part_less_transitive(a[0], b[0], c[0]);
            if a[0] == c[0] {
                lemma_part_less_total(a[0], b[0]);
            }
        }
    }
}

/// Splitting never gives an empty list.
proof fn lemma_split_nonempty(s: Seq<char>)
    ensures
        split_slash(s).len() >= 1,
    decreases s.len(),
{
    if s.len() > 0 {
        lemma_split_nonempty(s.drop_last());
    }
}

/// The component for one segment.
fn segment_component(seg: Vec<char>) -> (parts: Vec<PathComponent>)
    ensures
        parts@.map_values(|x: PathComponent| x@) == segment_part(seg@),
{
    let mut parts: Vec<PathComponent> = Vec::new();
    if seg.len() == 0 || (seg.len() == 1 && seg[0] == '.') {
        assert(seg@.len() == 0 || seg@ =~= seq!['.']);
    } else if seg.len() == 2 && seg[0] == '.' && seg[1] == '.' {
        assert(seg@ =~= seq!['.', '.']);
        parts.push(PathComponent::ParentDir);
        assert(parts@.map_values(|x: PathComponent| x@) =~= seq![PathPart::ParentDir]);
    } else {
        assert(seg@ != seq!['.']);
        assert(seg@ != seq!['.', '.']);
        let len = seg.len();
        let text = string_from_chars(&seg, 0, len);
        assert(seg@.subrange(0, len as int) =~= seg@);
        parts.push(PathComponent::Normal(text));
        assert(parts@.map_values(|x: PathComponent| x@) =~= seq![PathPart::Normal(seg@)]);
    }
    parts
}

/// The components of a Unix path (`Path::components`).
pub fn path_components(path: &str) -> (parts: Vec<PathComponent>)
    ensures
        parts@.map_values(|x: PathComponent| x@) == path_parts(path@),
{
    let chars = chars_of(path);
    let mut parts: Vec<PathComponent> = Vec::new();
    if chars.len() > 0 && chars[0] == '/' {
        parts.push(PathComponent::RootDir);
    } else if chars.len() > 0 && chars[0] == '.' && (chars.len() == 1 || chars[1] == '/') {
        parts.push(PathComponent::CurDir);
    }
    let ghost lead = parts@.map_values(|x: PathComponent| x@);
    assert(lead =~= leading_part(path@));
    let mut seg: Vec<char> = Vec::new();
    let mut i: usize = 0;
    proof {
        assert(chars@.subrange(0, 0) =~= Seq::<char>::empty());
    }
    while i < chars.len()
        invariant
            chars@ == path@,
            i <= chars@.len(),
            lead == leading_part(path@),
            seg@ == split_slash(chars@.subrange(0, i as int)).last(),
            split_slash(chars@.subrange(0, i as int)).len() >= 1,
            parts@.map_values(|x: PathComponent| x@) == lead + segments_parts(
                split_slash(chars@.subrange(0, i as int)).drop_last(),
            ),
        decreases chars@.len() - i,
    {
        let ghost pre = chars@.subrange(0, i as int);
        let ghost next = chars@.subrange(0, i + 1);
        assert(next.drop_last() =~= pre);
        assert(next.last() == chars@[i as int]);
        let c = chars[i];
        if c == '/' {
            let done_seg = seg;
            let more = segment_component(done_seg);
            let ghost before = parts@.map_values(|x: PathComponent| x@);
            let mut more = more;
            parts.append(&mut more);
            seg = Vec::new();
            proof {
                let sp = split_slash(pre);
                assert(split_slash(next) == sp.push(Seq::<char>::empty()));
                assert(split_slash(next).drop_last() =~= sp);
                assert(sp =~= sp.drop_last().push(sp.last()));
                assert(segments_parts(sp) == segments_parts(sp.drop_last()) + segment_part(sp.last()));
                assert(parts@.map_values(|x: PathComponent| x@) =~= before + segment_part(sp.last()));
                assert(parts@.map_values(|x: PathComponent| x@) =~= lead + segments_parts(sp));
            }
        } else {
            seg.push(c);
            proof {
                let sp = split_slash(pre);
                assert(split_slash(next) == sp.update(sp.len() - 1, sp.last().push(c)));
                assert(split_slash(next).drop_last() =~= sp.drop_last());
            }
        }
        i = i + 1;
    }
    proof {
        assert(chars@.subrange(0, chars@.len() as int) =~= chars@);
    }
    let ghost sp = split_slash(path@);
    let ghost before = parts@.map_values(|x: PathComponent| x@);
    let mut last = segment_component(seg);
    parts.append(&mut last);
    proof {
        assert(sp =~= sp.drop_last().push(sp.last()));
        assert(segments_parts(sp) == segments_parts(sp.drop_last()) + segment_part(sp.last()));
        assert(parts@.map_values(|x: PathComponent| x@) =~= before + segment_part(sp.last()));
        assert(parts@.map_values(|x: PathComponent| x@) =~= lead + segments_parts(sp));
    }
    parts
}

/// Compares two components in component order.
fn order_part(a: &PathComponent, b: &PathComponent) -> (r: Order)
    ensures
        r == Order::Less <==> part_less(a@, b@),
        r == Order::Equal <==> a@ == b@,
        r == Order::Greater <==> part_less(b@, a@),
{
    proof {
        lemma_part_less_total(a@, b@);
    }
    match (a, b) {
        (PathComponent::Normal(x), PathComponent::Normal(y)) => order_str(x.as_str(), y.as_str()),
        _ => {
            let ra: u8 = match a {
                PathComponent::RootDir => 0,
                PathComponent::CurDir => 1,
                PathComponent::ParentDir => 2,
                PathComponent::Normal(_) => 3,
            };
            let rb: u8 = match b {
                PathComponent::RootDir => 0,
                PathComponent::CurDir => 1,
                PathComponent::ParentDir => 2,
                PathComponent::Normal(_) => 3,
            };
            if ra < rb {
                Order::Less
            } else if ra == rb {
                Order::Equal
            } else {
                Order::Greater
            }
        },
    }
}

/// Compares two component lists lexicographically.
fn order_parts(a: &Vec<PathComponent>, b: &Vec<PathComponent>) -> (r: Order)
    ensures
        r == Order::Less <==> parts_less(a@.map_values(|x: PathComponent| x@), b@.map_values(|x: PathComponent| x@)),
        r == Order::Equal <==> a@.map_values(|x: PathComponent| x@) == b@.map_values(|x: PathComponent| x@),
        r == Order::Greater <==> parts_less(b@.map_values(|x: PathComponent| x@), a@.map_values(|x: PathComponent| x@)),
{
    let ghost x = a@.map_values(|x: PathComponent| x@);
    let ghost y = b@.map_values(|x: PathComponent| x@);
    proof {
        lemma_parts_less_total(x, y);
    }
    let mut i: usize = 0;
    assert(x.subrange(0, x.len() as int) =~= x);
    assert(y.subrange(0, y.len() as int) =~= y);
    while i < a.len() && i < b.len()
        invariant
            x == a@.map_values(|x: PathComponent| x@),
            y == b@.map_values(|x: PathComponent| x@),
            i <= x.len(),
            i <= y.len(),
            x.subrange(0, i as int) == y.subrange(0, i as int),
            parts_less(x, y) == parts_less(x.subrange(i as int, x.len() as int), y.subrange(i as int, y.len() as int)),
            parts_less(y, x) == parts_less(y.subrange(i as int, y.len() as int), x.subrange(i as int, x.len() as int)),
        decreases x.len() - i,
    {
        let ghost xs = x.subrange(i as int, x.len() as int);
        let ghost ys = y.subrange(i as int, y.len() as int);
        let o = order_part(&a[i], &b[i]);
        assert(xs[0] == x[i as int] && ys[0] == y[i as int]);
        if o != Order::Equal {
            return o;
        }
        proof {
            assert(xs.drop_first() =~= x.subrange(i + 1, x.len() as int));
            assert(ys.drop_first() =~= y.subrange(i + 1, y.len() as int));
            assert(x.subrange(0, i + 1) =~= x.subrange(0, i as int).push(x[i as int]));
            assert(y.subrange(0, i + 1) =~= y.subrange(0, i as int).push(y[i as int]));
        }
        i = i + 1;
    }
    if a.len() == b.len() {
        assert(x =~= x.subrange(0, i as int));
        assert(y =~= y.subrange(0, i as int));
        Order::Equal
    } else if i == a.len() {
        proof {
            assert(x.subrange(i as int, x.len() as int) =~= Seq::<PathPart>::empty());
        }
        Order::Less
    } else {
        proof {
            assert(y.subrange(i as int, y.len() as int) =~= Seq::<PathPart>::empty());
        }
        Order::Greater
    }
}

/// Compares two paths by their components, as `Path`'s `Ord` does.
pub fn order_path(a: &str, b: &str) -> (r: Order)
    ensures
        r == Order::Less <==> path_less(a@, b@),
        r == Order::Equal <==> path_parts(a@) == path_parts(b@),
        r == Order::Greater <==> path_less(b@, a@),
{
    let x = path_components(a);
    let y = path_components(b);
    order_parts(&x, &y)
}

/// Whether two paths have the same components, as `Path`'s `==` does.
pub fn path_eq(a: &str, b: &str) -> (r: bool)
    ensures
        r == (path_parts(a@) == path_parts(b@)),
{
    order_path(a, b) == Order::Equal
}

/// Whether `path` starts with the components of `base` (`Path::starts_with`).
pub fn starts_with_path(path: &str, base: &str) -> (r: bool)
    ensures
        r == path_starts_with(path@, base@),
{
    let p = path_components(path);
    let b = path_components(base);
    let ghost pv = p@.map_values(|x: PathComponent| x@);
    let ghost bv = b@.map_values(|x: PathComponent| x@);
    if b.len() > p.len() {
        return false;
    }
    let mut i: usize = 0;
    while i < b.len()
        invariant
            pv == p@.map_values(|x: PathComponent| x@),
            bv == b@.map_values(|x: PathComponent| x@),
            pv == path_parts(path@),
            bv == path_parts(base@),
            b@.len() <= p@.len(),
            i <= b@.len(),
            pv.subrange(0, i as int) == bv.subrange(0, i as int),
        decreases b@.len() - i,
    {
        if order_part(&p[i], &b[i]) != Order::Equal {
            assert(pv[i as int] == p@[i as int]@);
            assert(bv[i as int] == b@[i as int]@);
            assert(pv.subrange(0, bv.len() as int)[i as int] == pv[i as int]);
            assert(pv.subrange(0, bv.len() as int) != bv);
            assert(!path_starts_with(path@, base@));
            return false;
        }
        assert(pv.subrange(0, i + 1) =~= pv.subrange(0, i as int).push(pv[i as int]));
        assert(bv.subrange(0, i + 1) =~= bv.subrange(0, i as int).push(bv[i as int]));
        i = i + 1;
    }
    assert(bv.subrange(0, bv.len() as int) =~= bv);
    true
}

} // verus!
