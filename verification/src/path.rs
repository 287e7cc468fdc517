//! Paths as byte strings: their parts, the order in which paths are indexed,
//! and how a target is placed under a root directory.

use crate::text::{
    bytes_lt, lemma_bytes_lt_asymmetric, lemma_bytes_lt_irreflexive, lemma_bytes_lt_skip,
    lemma_bytes_lt_total, lemma_bytes_lt_transitive, lemma_split_at, lemma_split_concat,
    lemma_split_none, split, split_bytes, views,
};
use vstd::prelude::*;

verus! {

/// The byte that separates the parts of a path.
pub const SLASH: u8 = 47;

/// The byte of which the names `.` and `..` are made.
pub const DOT: u8 = 46;

/// One part of a path, as the mathematical model has it.
pub enum Component {
    /// The root directory, which an absolute path starts with.
    Root,
    /// A leading `.` of a relative path.
    Current,
    /// A `..`.
    Parent,
    /// A name.
    Normal(Seq<u8>),
}

/// One part of a path.
#[derive(Debug)]
pub enum PathPart {
    Root,
    Current,
    Parent,
    Normal(Vec<u8>),
}

impl View for PathPart {
    type V = Component;

    open spec fn view(&self) -> Component {
        match self {
            PathPart::Root => Component::Root,
            PathPart::Current => Component::Current,
            PathPart::Parent => Component::Parent,
            PathPart::Normal(name) => Component::Normal(name@),
        }
    }
}

/// How one path stands to another in the index.
#[derive(Copy, Clone, Debug, PartialEq, Eq, Structural)]
pub enum Order {
    Before,
    Same,
    After,
}

/// The views of the parts of `v`, in order.
pub open spec fn part_views(v: Seq<PathPart>) -> Seq<Component> {
    Seq::new(v.len(), |i: int| v[i]@)
}

/// The name `.`.
pub open spec fn dot() -> Seq<u8> {
    seq![DOT]
}

/// The name `..`.
pub open spec fn dotdot() -> Seq<u8> {
    seq![DOT, DOT]
}

/// What the pieces between separators contribute to a path: an empty piece
/// and a `.` contribute nothing, `..` a step up, any other piece a name.
pub open spec fn named(segs: Seq<Seq<u8>>) -> Seq<Component>
    decreases segs.len(),
{
    if segs.len() == 0 {
        Seq::empty()
    } else {
        let rest = named(segs.drop_last());
        let s = segs.last();
        if s.len() == 0 || s == dot() {
            rest
        } else if s == dotdot() {
            rest.push(Component::Parent)
        } else {
            rest.push(Component::Normal(s))
        }
    }
}

/// Whether the path starts at the root directory.
pub open spec fn is_absolute(path: Seq<u8>) -> bool {
    path.len() > 0 && path[0] == SLASH
}

/// The parts of a path. Repeated separators, a trailing separator and a `.`
/// that is not at the start of a relative path leave no trace.
pub open spec fn components(path: Seq<u8>) -> Seq<Component> {
    let segs = split(path, SLASH);
    let head = if is_absolute(path) {
        seq![Component::Root]
    } else if segs[0] == dot() {
        seq![Component::Current]
    } else {
        Seq::empty()
    };
    head + named(segs)
}

/// The kinds of parts in their order: root, `.`, `..`, names.
pub open spec fn rank(c: Component) -> int {
    match c {
        Component::Root => 0,
        Component::Current => 1,
        Component::Parent => 2,
        Component::Normal(_) => 3,
    }
}

/// One part comes before another: by kind, and two names byte by byte.
pub open spec fn part_lt(a: Component, b: Component) -> bool {
    rank(a) < rank(b) || (a matches Component::Normal(x) && b matches Component::Normal(y)
        && bytes_lt(x, y))
}

/// One sequence of parts comes before another: at the first place where
/// they differ, or because the first is a proper prefix of the second.
pub open spec fn parts_lt(a: Seq<Component>, b: Seq<Component>) -> bool
    decreases a.len(),
{
    if b.len() == 0 {
        false
    } else if a.len() == 0 {
        true
    } else if a[0] != b[0] {
        part_lt(a[0], b[0])
    } else {
        parts_lt(a.drop_first(), b.drop_first())
    }
}

/// `a` comes before `b` in the index of paths.
pub open spec fn path_lt(a: Seq<u8>, b: Seq<u8>) -> bool {
    parts_lt(components(a), components(b))
}

/// `a` and `b` name the same place: they have the same parts.
pub open spec fn same_path(a: Seq<u8>, b: Seq<u8>) -> bool {
    components(a) == components(b)
}

/// `a` is a directory above `b`: the parts of `a` are a proper prefix of
/// those of `b`.
pub open spec fn is_ancestor(a: Seq<u8>, b: Seq<u8>) -> bool {
    let ca = components(a);
    let cb = components(b);
    ca.len() < cb.len() && cb.take(ca.len() as int) == ca
}

/// `root` with a separator at its end.
pub open spec fn with_slash(root: Seq<u8>) -> Seq<u8> {
    if root.len() > 0 && root.last() == SLASH {
        root
    } else {
        root.push(SLASH)
    }
}

/// `target` without the separator it starts with, if it starts with one.
pub open spec fn relative(target: Seq<u8>) -> Seq<u8> {
    if is_absolute(target) {
        target.skip(1)
    } else {
        target
    }
}

/// The place of `target` below `root`: the root, one separator, and the
/// target without its leading separator.
pub open spec fn join_under(root: Seq<u8>, target: Seq<u8>) -> Seq<u8> {
    with_slash(root) + relative(target)
}

/// Two sequences with a common start stand to each other as their rests do.
pub proof fn lemma_parts_lt_skip(a: Seq<Component>, b: Seq<Component>, i: int)
    requires
        0 <= i <= a.len(),
        i <= b.len(),
        a.take(i) == b.take(i),
    ensures
        parts_lt(a, b) == parts_lt(a.skip(i), b.skip(i)),
    decreases i,
{
    if i == 0 {
        assert(a.skip(0) =~= a);
        assert(b.skip(0) =~= b);
    } else {
        assert(a[0] == a.take(i)[0]);
        assert(b[0] == b.take(i)[0]);
        let a1 = a.drop_first();
        let b1 = b.drop_first();
        assert(a1.take(i - 1) =~= a.take(i).drop_first());
        assert(b1.take(i - 1) =~= b.take(i).drop_first());
        lemma_parts_lt_skip(a1, b1, i - 1);
        assert(a1.skip(i - 1) =~= a.skip(i));
        assert(b1.skip(i - 1) =~= b.skip(i));
    }
}

/// Of two different parts one comes before the other, and never both.
pub proof fn lemma_part_lt_total(a: Component, b: Component)
    ensures
        a != b ==> part_lt(a, b) || part_lt(b, a),
        part_lt(a, b) ==> !part_lt(b, a) && a != b,
{
    if let Component::Normal(x) = a {
        if let Component::Normal(y) = b {
            if x != y {
                lemma_bytes_lt_total(x, y);
            }
            if bytes_lt(x, y) {
                lemma_bytes_lt_asymmetric(x, y);
                lemma_bytes_lt_irreflexive(x);
            }
        }
    }
}

/// The order of parts is transitive.
pub proof fn lemma_part_lt_transitive(a: Component, b: Component, c: Component)
    requires
        part_lt(a, b),
        part_lt(b, c),
    ensures
        part_lt(a, c),
{
    if let Component::Normal(x) = a {
        if let Component::Normal(y) = b {
            if let Component::Normal(z) = c {
                lemma_bytes_lt_transitive(x, y, z);
            }
        }
    }
}

/// No sequence of parts comes before itself.
pub proof fn lemma_parts_lt_irreflexive(a: Seq<Component>)
    ensures
        !parts_lt(a, a),
    decreases a.len(),
{
    if a.len() > 0 {
        lemma_parts_lt_irreflexive(a.drop_first());
    }
}

/// Of two different sequences of parts one comes before the other.
pub proof fn lemma_parts_lt_total(a: Seq<Component>, b: Seq<Component>)
    requires
        a != b,
    ensures
        parts_lt(a, b) || parts_lt(b, a),
    decreases a.len(),
{
    if a.len() > 0 && b.len() > 0 {
        if a[0] == b[0] {
            let a1 = a.drop_first();
            let b1 = b.drop_first();
            if a1 == b1 {
                assert(a1.len() == a.len() - 1 && b1.len() == b.len() - 1);
            assert forall|i: int| 0 <= i < a.len() implies a[i] == b[i] by {
                    if i > 0 {
                        assert(a[i] == a1[i - 1]);
                        assert(b[i] == b1[i - 1]);
                    }
                }
                assert(a =~= b);
            }
            lemma_parts_lt_total(a1, b1);
        } else {
            lemma_part_lt_total(a[0], b[0]);
        }
    } else if a.len() == 0 && b.len() == 0 {
        assert(a =~= b);
    }
}

/// Two sequences of parts do not come before each other.
pub proof fn lemma_parts_lt_asymmetric(a: Seq<Component>, b: Seq<Component>)
    requires
        parts_lt(a, b),
    ensures
        !parts_lt(b, a),
    decreases a.len(),
{
    if a.len() > 0 && b.len() > 0 {
        if a[0] == b[0] {
            lemma_parts_lt_asymmetric(a.drop_first(), b.drop_first());
        } else {
            lemma_part_lt_total(a[0], b[0]);
        }
    }
}

/// The order of sequences of parts is transitive.
pub proof fn lemma_parts_lt_transitive(a: Seq<Component>, b: Seq<Component>, c: Seq<Component>)
    requires
        parts_lt(a, b),
        parts_lt(b, c),
    ensures
        parts_lt(a, c),
    decreases a.len(),
{
    if a.len() > 0 && b.len() > 0 && c.len() > 0 {
        if a[0] == b[0] && b[0] == c[0] {
            lemma_parts_lt_transitive(a.drop_first(), b.drop_first(), c.drop_first());
        } else if a[0] == b[0] {
        } else if b[0] == c[0] {
        } else {
            lemma_part_lt_transitive(a[0], b[0], c[0]);
            lemma_part_lt_total(a[0], c[0]);
        }
    }
}

/// A proper prefix comes before the sequence it starts.
pub proof fn lemma_prefix_parts_lt(a: Seq<Component>, b: Seq<Component>)
    requires
        a.len() < b.len(),
        b.take(a.len() as int) == a,
    ensures
        parts_lt(a, b),
{
    assert(a.take(a.len() as int) =~= a);
    lemma_parts_lt_skip(a, b, a.len() as int);
    assert(a.skip(a.len() as int).len() == 0);
}

/// A directory comes before everything below it in the index of paths.
pub proof fn lemma_ancestor_first(a: Seq<u8>, b: Seq<u8>)
    requires
        is_ancestor(a, b),
    ensures
        path_lt(a, b),
{
    lemma_prefix_parts_lt(components(a), components(b));
}

/// The index of paths is a strict total order on places: two paths name
/// the same place, or exactly one comes before the other.
pub proof fn lemma_path_order(a: Seq<u8>, b: Seq<u8>)
    ensures
        same_path(a, b) ==> !path_lt(a, b) && !path_lt(b, a),
        !same_path(a, b) ==> (path_lt(a, b) <==> !path_lt(b, a)),
{
    if same_path(a, b) {
        lemma_parts_lt_irreflexive(components(a));
    } else {
        lemma_parts_lt_total(components(a), components(b));
        if path_lt(a, b) {
            lemma_parts_lt_asymmetric(components(a), components(b));
        }
    }
}

/// The index of paths is transitive.
pub proof fn lemma_path_lt_transitive(a: Seq<u8>, b: Seq<u8>, c: Seq<u8>)
    requires
        path_lt(a, b),
        path_lt(b, c),
    ensures
        path_lt(a, c),
{
    lemma_parts_lt_transitive(components(a), components(b), components(c));
}

/// How two byte strings stand to each other, byte by byte.
pub fn compare_bytes(a: &[u8], b: &[u8]) -> (order: Order)
    ensures
        (order == Order::Before) == bytes_lt(a@, b@),
        (order == Order::Same) == (a@ == b@),
        (order == Order::After) == bytes_lt(b@, a@),
{
    let mut i: usize = 0;
    while i < a.len() && i < b.len()
        invariant
            0 <= i <= a.len(),
            i <= b.len(),
            a@.take(i as int) == b@.take(i as int),
        decreases a.len() - i,
    {
        if a[i] != b[i] {
            proof {
                lemma_bytes_lt_skip(a@, b@, i as int);
                lemma_bytes_lt_skip(b@, a@, i as int);
                assert(a@.skip(i as int)[0] == a@[i as int]);
                assert(b@.skip(i as int)[0] == b@[i as int]);
            }
            if a[i] < b[i] {
                return Order::Before;
            } else {
                return Order::After;
            }
        }
        assert(a@.take(i + 1) =~= a@.take(i as int).push(a@[i as int]));
        assert(b@.take(i + 1) =~= b@.take(i as int).push(b@[i as int]));
        i += 1;
    }
    proof {
        lemma_bytes_lt_skip(a@, b@, i as int);
        lemma_bytes_lt_skip(b@, a@, i as int);
    }
    if i < b.len() {
        Order::Before
    } else if i < a.len() {
        Order::After
    } else {
        assert(a@.take(i as int) =~= a@);
        assert(b@.take(i as int) =~= b@);
        Order::Same
    }
}

/// How two parts stand to each other.
pub fn compare_part(a: &PathPart, b: &PathPart) -> (order: Order)
    ensures
        (order == Order::Before) == part_lt(a@, b@),
        (order == Order::Same) == (a@ == b@),
        (order == Order::After) == part_lt(b@, a@),
{
    proof {
        lemma_part_lt_total(a@, b@);
        lemma_part_lt_total(b@, a@);
    }
    match (a, b) {
        (PathPart::Normal(x), PathPart::Normal(y)) => compare_bytes(x.as_slice(), y.as_slice()),
        (PathPart::Root, PathPart::Root) => Order::Same,
        (PathPart::Root, _) => Order::Before,
        (PathPart::Current, PathPart::Root) => Order::After,
        (PathPart::Current, PathPart::Current) => Order::Same,
        (PathPart::Current, _) => Order::Before,
        (PathPart::Parent, PathPart::Normal(_)) => Order::Before,
        (PathPart::Parent, PathPart::Parent) => Order::Same,
        (PathPart::Parent, _) => Order::After,
        (PathPart::Normal(_), _) => Order::After,
    }
}

/// How two sequences of parts stand to each other.
pub fn compare_parts(a: &Vec<PathPart>, b: &Vec<PathPart>) -> (order: Order)
    ensures
        (order == Order::Before) == parts_lt(part_views(a@), part_views(b@)),
        (order == Order::Same) == (part_views(a@) == part_views(b@)),
        (order == Order::After) == parts_lt(part_views(b@), part_views(a@)),
{
    let ghost va = part_views(a@);
    let ghost vb = part_views(b@);
    let mut i: usize = 0;
    while i < a.len() && i < b.len()
        invariant
            va == part_views(a@),
            vb == part_views(b@),
            0 <= i <= a.len(),
            i <= b.len(),
            va.take(i as int) == vb.take(i as int),
        decreases a.len() - i,
    {
        let step = compare_part(&a[i], &b[i]);
        if step != Order::Same {
            proof {
                lemma_parts_lt_skip(va, vb, i as int);
                lemma_parts_lt_skip(vb, va, i as int);
                assert(va.skip(i as int)[0] == va[i as int]);
                assert(vb.skip(i as int)[0] == vb[i as int]);
                assert(va.take(i + 1)[i as int] != vb.take(i + 1)[i as int]);
            }
            return step;
        }
        assert(va.take(i + 1) =~= va.take(i as int).push(va[i as int]));
        assert(vb.take(i + 1) =~= vb.take(i as int).push(vb[i as int]));
        i += 1;
    }
    proof {
        lemma_parts_lt_skip(va, vb, i as int);
        lemma_parts_lt_skip(vb, va, i as int);
    }
    if i < b.len() {
        Order::Before
    } else if i < a.len() {
        Order::After
    } else {
        assert(va.take(i as int) =~= va);
        assert(vb.take(i as int) =~= vb);
        Order::Same
    }
}

/// The parts of a path.
pub fn parts(path: &[u8]) -> (out: Vec<PathPart>)
    ensures
        part_views(out@) == components(path@),
{
    let segs = split_bytes(path, SLASH);
    let ghost pieces = split(path@, SLASH);
    let mut out: Vec<PathPart> = Vec::new();
    proof {
        crate::text::lemma_split_nonempty(path@, SLASH);
        assert(views(segs@).len() == segs@.len());
    }
    if path.len() > 0 && path[0] == SLASH {
        out.push(PathPart::Root);
    } else if segs[0].len() == 1 && segs[0][0] == DOT {
        assert(segs@[0]@ =~= dot());
        out.push(PathPart::Current);
    }
    let ghost head = part_views(out@);
    assert(pieces[0] == segs@[0]@);
    assert(head + named(pieces.take(0)) =~= head);
    let mut i: usize = 0;
    while i < segs.len()
        invariant
            0 <= i <= segs.len(),
            views(segs@) == pieces,
            part_views(out@) == head + named(pieces.take(i as int)),
        decreases segs.len() - i,
    {
        let seg = &segs[i];
        let ghost before = part_views(out@);
        proof {
            assert(pieces.take(i + 1).drop_last() =~= pieces.take(i as int));
            assert(pieces.take(i + 1).last() == seg@);
        }
        if seg.len() == 0 {
        } else if seg.len() == 1 && seg[0] == DOT {
            assert(seg@ =~= dot());
        } else if seg.len() == 2 && seg[0] == DOT && seg[1] == DOT {
            assert(seg@ =~= dotdot());
            out.push(PathPart::Parent);
            assert(part_views(out@) =~= before.push(Component::Parent));
        } else {
            assert(seg@ != dot()) by {
                if seg@ == dot() {
                    assert(dot().len() == 1 && dot()[0] == DOT);
                }
            }
            assert(seg@ != dotdot()) by {
                if seg@ == dotdot() {
                    assert(dotdot().len() == 2 && dotdot()[0] == DOT && dotdot()[1] == DOT);
                }
            }
            let name = crate::text::copy_bytes(seg.as_slice());
            out.push(PathPart::Normal(name));
            assert(part_views(out@) =~= before.push(Component::Normal(seg@)));
        }
        i += 1;
    }
    assert(pieces.take(segs.len() as int) =~= pieces);
    out
}

/// How two paths stand to each other in the index of paths.
pub fn compare_paths(a: &[u8], b: &[u8]) -> (order: Order)
    ensures
        (order == Order::Before) == path_lt(a@, b@),
        (order == Order::Same) == same_path(a@, b@),
        (order == Order::After) == path_lt(b@, a@),
{
    let pa = parts(a);
    let pb = parts(b);
    compare_parts(&pa, &pb)
}

/// The place of `target` below `root`.
pub fn join(root: &[u8], target: &[u8]) -> (out: Vec<u8>)
    ensures
        out@ == join_under(root@, target@),
{
    let mut out = crate::text::copy_bytes(root);
    if root.len() == 0 || root[root.len() - 1] != SLASH {
        out.push(SLASH);
    }
    let mut i: usize = if target.len() > 0 && target[0] == SLASH {
        1
    } else {
        0
    };
    let ghost base = out@;
    let ghost first = i;
    while i < target.len()
        invariant
            first <= i <= target.len(),
            out@ == base + target@.subrange(first as int, i as int),
        decreases target.len() - i,
    {
        out.push(target[i]);
        assert(target@.subrange(first as int, i + 1) =~= target@.subrange(first as int, i as int).push(
            target@[i as int],
        ));
        i += 1;
    }
    assert(target@.subrange(first as int, target.len() as int) =~= relative(target@));
    out
}

/// What pieces contribute is what the first of them contribute, then what
/// the rest contribute.
pub proof fn lemma_named_concat(x: Seq<Seq<u8>>, y: Seq<Seq<u8>>)
    ensures
        named(x + y) == named(x) + named(y),
    decreases y.len(),
{
    if y.len() == 0 {
        assert(x + y =~= x);
        assert(named(x) + named(y) =~= named(x));
    } else {
        assert((x + y).drop_last() =~= x + y.drop_last());
        assert((x + y).last() == y.last());
        lemma_named_concat(x, y.drop_last());
        let front = named(x) + named(y.drop_last());
        assert(front.push(Component::Parent) =~= named(x) + named(y.drop_last()).push(
            Component::Parent,
        ));
        assert(front.push(Component::Normal(y.last())) =~= named(x) + named(y.drop_last()).push(
            Component::Normal(y.last()),
        ));
    }
}

/// The parts of an absolute path are the root and what its pieces behind
/// the first separator contribute.
pub proof fn lemma_absolute_parts(path: Seq<u8>)
    requires
        is_absolute(path),
    ensures
        components(path) == seq![Component::Root] + named(split(relative(path), SLASH)),
{
    let empty = Seq::<u8>::empty();
    lemma_split_at(path, SLASH, 0);
    assert(path.take(0) =~= empty);
    lemma_named_concat(seq![empty], split(path.skip(1), SLASH));
    assert(seq![empty].drop_last() =~= Seq::<Seq<u8>>::empty());
    assert(named(seq![empty].drop_last()) =~= Seq::<Component>::empty());
    assert(seq![empty].last() == empty);
    assert(named(seq![empty]) =~= Seq::<Component>::empty());
    assert(named(seq![empty]) + named(split(path.skip(1), SLASH)) =~= named(
        split(path.skip(1), SLASH),
    ));
}

/// The parts of a target placed under a root are the parts of the root
/// and what the pieces of the target contribute.
pub proof fn lemma_joined_parts(root: Seq<u8>, target: Seq<u8>)
    ensures
        components(join_under(root, target)) == components(with_slash(root)) + named(
            split(relative(target), SLASH),
        ),
{
    let base = with_slash(root);
    let rel = relative(target);
    let empty = Seq::<u8>::empty();
    let x = base.drop_last();
    assert(base =~= x + seq![SLASH] + empty);
    assert(base + rel =~= x + seq![SLASH] + rel);
    lemma_split_concat(x, rel, SLASH);
    lemma_split_concat(x, empty, SLASH);
    lemma_split_none(empty, SLASH);
    let sx = split(x, SLASH);
    assert(sx.len() >= 1);
    assert((sx + split(rel, SLASH))[0] == sx[0]);
    assert((sx + seq![empty])[0] == sx[0]);
    assert((base + rel)[0] == base[0]);
    lemma_named_concat(sx, split(rel, SLASH));
    lemma_named_concat(sx, seq![empty]);
    assert(seq![empty].drop_last() =~= Seq::<Seq<u8>>::empty());
    assert(named(seq![empty].drop_last()) =~= Seq::<Component>::empty());
    assert(seq![empty].last() == empty);
    assert(named(seq![empty]) =~= Seq::<Component>::empty());
    assert(named(sx) + named(seq![empty]) =~= named(sx));
    assert(components(base + rel) =~= components(base) + named(split(rel, SLASH)));
}

/// Of two absolute targets, one above the other, the one above is placed
/// above the other under every root, and so comes first in the index of
/// paths.
pub proof fn law_ancestor_targets(root: Seq<u8>, a: Seq<u8>, b: Seq<u8>)
    requires
        is_absolute(a),
        is_absolute(b),
        is_ancestor(a, b),
    ensures
        is_ancestor(join_under(root, a), join_under(root, b)),
        path_lt(join_under(root, a), join_under(root, b)),
{
    lemma_absolute_parts(a);
    lemma_absolute_parts(b);
    lemma_joined_parts(root, a);
    lemma_joined_parts(root, b);
    let c = components(with_slash(root));
    let na = named(split(relative(a), SLASH));
    let nb = named(split(relative(b), SLASH));
    let ca = components(a);
    let cb = components(b);
    assert forall|i: int| 0 <= i < na.len() implies nb[i] == na[i] by {
        assert(cb.take(ca.len() as int)[i + 1] == ca[i + 1]);
        assert(ca[i + 1] == na[i]);
        assert(cb[i + 1] == nb[i]);
    }
    assert((c + nb).take((c + na).len() as int) =~= c + na);
    lemma_ancestor_first(join_under(root, a), join_under(root, b));
}

} // verus!
