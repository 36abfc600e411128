//! Paths as text, with `/` between components.

use crate::text::{chars_of, join_texts, joined, opt_text, same_text, texts};
use vstd::prelude::*;

verus! {

// ---------------------------------------------------------------------------
// Models
// ---------------------------------------------------------------------------

/// The parts of a text between the characters `c`.
pub open spec fn split(s: Seq<char>, c: char) -> Seq<Seq<char>>
    decreases s.len(),
{
    if s.len() == 0 {
        seq![seq![]]
    } else {
        let before = split(s.drop_last(), c);
        if s.last() == c {
            before.push(seq![])
        } else {
            before.drop_last().push(before.last().push(s.last()))
        }
    }
}

/// Whether a path starts at the root.
pub open spec fn absolute(path: Seq<char>) -> bool {
    path.len() > 0 && path[0] == '/'
}

/// The path `part` as seen from `base`: an absolute `part` stands alone, any other is put behind
/// `base` with one `/` between.
pub open spec fn path_join(base: Seq<char>, part: Seq<char>) -> Seq<char> {
    if absolute(part) {
        part
    } else if base.len() == 0 || base.last() == '/' {
        base + part
    } else {
        base + seq!['/'] + part
    }
}

/// Whether a part of a path, at position `i` among its parts, names a component: an empty part
/// does not, and a single dot does so only at the front.
pub open spec fn names_component(part: Seq<char>, i: int) -> bool {
    part.len() > 0 && (part != "."@ || i == 0)
}

/// Those of the first `n` parts that name a component.
pub open spec fn named_parts(parts: Seq<Seq<char>>, n: nat) -> Seq<Seq<char>>
    decreases n,
{
    if n == 0 || n > parts.len() {
        seq![]
    } else if names_component(parts[n - 1], n - 1) {
        named_parts(parts, (n - 1) as nat).push(parts[n - 1])
    } else {
        named_parts(parts, (n - 1) as nat)
    }
}

/// The components of a path: the root, where it is absolute, and the names.
pub open spec fn components(path: Seq<char>) -> Seq<Seq<char>> {
    let parts = split(path, '/');
    let names = named_parts(parts, parts.len());
    if absolute(path) {
        seq!["/"@] + names
    } else {
        names
    }
}

/// Whether a text becomes one component where it is joined to a path: not empty, not `.`, and
/// without `/`.
pub open spec fn one_component(part: Seq<char>) -> bool {
    part.len() > 0 && part != "."@ && !part.contains('/')
}

/// Whether a component is the name of an entry, and not the root, `.` or `..`.
pub open spec fn is_name(component: Seq<char>) -> bool {
    component != "/"@ && component != "."@ && component != ".."@
}

/// The last component of a path, where it is a name.
pub open spec fn file_name(path: Seq<char>) -> Option<Seq<char>> {
    let all = components(path);
    if all.len() > 0 && is_name(all.last()) {
        Some(all.last())
    } else {
        None
    }
}

/// Of the first `n` parts, how many there are up to the last one that names a component.
pub open spec fn named_end(parts: Seq<Seq<char>>, n: nat) -> nat
    decreases n,
{
    if n == 0 || n > parts.len() {
        0
    } else if names_component(parts[n - 1], n - 1) {
        n
    } else {
        named_end(parts, (n - 1) as nat)
    }
}

/// The text of a path up to the end of its part number `n`. In front of all parts only the root is
/// left, where the path is absolute.
pub open spec fn front_text(path: Seq<char>, n: nat) -> Seq<char> {
    if n > 0 {
        joined(split(path, '/').take(n as int), "/"@)
    } else if absolute(path) {
        "/"@
    } else {
        seq![]
    }
}

/// The path without its last component, in the letters in which it is written: it ends with the
/// component before. The root and the empty path have none.
pub open spec fn parent(path: Seq<char>) -> Option<Seq<char>> {
    let parts = split(path, '/');
    let last = named_end(parts, parts.len());
    if last == 0 {
        None
    } else {
        Some(front_text(path, named_end(parts, (last - 1) as nat)))
    }
}

/// Whether the components of `path` begin with those of `root`.
pub open spec fn is_under(path: Seq<char>, root: Seq<char>) -> bool {
    let inner = components(path);
    let outer = components(root);
    outer.len() <= inner.len() && inner.take(outer.len() as int) == outer
}

/// The components of `path` behind those of `root`.
pub open spec fn relative_components(path: Seq<char>, root: Seq<char>) -> Seq<Seq<char>> {
    components(path).skip(components(root).len() as int)
}

/// Of the first `n` parts, those that stand before name number `k`, counted from zero.
pub open spec fn parts_before(parts: Seq<Seq<char>>, k: nat, n: nat) -> nat
    decreases n,
{
    if n == 0 || named_parts(parts, n).len() <= k {
        n
    } else {
        parts_before(parts, k, (n - 1) as nat)
    }
}

/// What is left of `path` behind the components of `root`, in the letters in which it is written:
/// from the first component that is left to the last.
pub open spec fn relative_text(path: Seq<char>, root: Seq<char>) -> Seq<char> {
    let parts = split(path, '/');
    let last = named_end(parts, parts.len());
    let gone = components(root).len();
    if gone == 0 {
        front_text(path, last)
    } else if components(path).len() <= gone {
        seq![]
    } else {
        let names = if absolute(path) {
            (gone - 1) as nat
        } else {
            gone
        };
        joined(parts.subrange(parts_before(parts, names, parts.len()) as int, last as int), "/"@)
    }
}

// ---------------------------------------------------------------------------
// Facts
// ---------------------------------------------------------------------------

/// There is always at least one part.
pub proof fn lemma_split_nonempty(s: Seq<char>, c: char)
    ensures
        split(s, c).len() > 0,
    decreases s.len(),
{
    if s.len() > 0 {
        lemma_split_nonempty(s.drop_last(), c);
    }
}

/// Splitting loses nothing: the parts with `c` between them are the text, and no part holds `c`.
pub proof fn lemma_split_joins_back(s: Seq<char>, c: char)
    ensures
        joined(split(s, c), seq![c]) == s,
        forall|i: int| 0 <= i < split(s, c).len() ==> !(#[trigger] split(s, c)[i]).contains(c),
    decreases s.len(),
{
    let parts = split(s, c);
    let sep = seq![c];
    if s.len() == 0 {
        assert(joined(parts, sep) =~= s);
    } else {
        let before = split(s.drop_last(), c);
        lemma_split_nonempty(s.drop_last(), c);
        lemma_split_joins_back(s.drop_last(), c);
        if s.last() == c {
            assert(parts.drop_last() =~= before);
            assert(parts.last() =~= seq![]);
            assert(joined(parts, sep) =~= s.drop_last() + sep);
            assert(s =~= s.drop_last() + sep);
            assert forall|i: int| 0 <= i < parts.len() implies !(#[trigger] parts[i]).contains(
                c,
            ) by {
                if i < before.len() {
                    assert(parts[i] == before[i]);
                }
            }
        } else {
            assert(parts.drop_last() =~= before.drop_last());
            assert(parts.last() == before.last().push(s.last()));
            if before.len() == 1 {
                assert(joined(parts, sep) =~= s);
            } else {
                let head = joined(before.drop_last(), sep) + sep;
                assert(joined(before, sep) == head + before.last());
                assert(head + before.last().push(s.last()) =~= (head + before.last()).push(
                    s.last(),
                ));
                assert(joined(parts, sep) =~= s);
            }
            assert forall|i: int| 0 <= i < parts.len() implies !(#[trigger] parts[i]).contains(
                c,
            ) by {
                if i < parts.len() - 1 {
                    assert(parts[i] == before[i]);
                } else {
                    let part = before[before.len() - 1];
                    assert(!part.contains(c));
                    assert forall|k: int| 0 <= k < parts[i].len() implies parts[i][k] != c by {
                        if k < part.len() {
                            assert(part.contains(part[k]));
                        }
                    }
                }
            }
        }
    }
}

/// Text without `c` behind another is put behind its last part.
pub proof fn lemma_split_append(b: Seq<char>, n: Seq<char>, c: char)
    requires
        !n.contains(c),
    ensures
        split(b + n, c) == split(b, c).drop_last().push(split(b, c).last() + n),
    decreases n.len(),
{
    lemma_split_nonempty(b, c);
    let parts = split(b, c);
    if n.len() == 0 {
        assert(b + n =~= b);
        assert(parts.last() + n =~= parts.last());
        assert(parts.drop_last().push(parts.last()) =~= parts);
    } else {
        let m = n.drop_last();
        assert(!m.contains(c)) by {
            if m.contains(c) {
                let i = choose|i: int| 0 <= i < m.len() && m[i] == c;
                assert(n[i] == c);
            }
        }
        assert(n[n.len() - 1] != c);
        lemma_split_append(b, m, c);
        assert((b + n).drop_last() =~= b + m);
        assert((b + n).last() == n.last());
        let before = parts.drop_last().push(parts.last() + m);
        assert(before.drop_last() =~= parts.drop_last());
        assert((parts.last() + m).push(n.last()) =~= parts.last() + n);
    }
}

/// Which parts name a component depends on those parts alone.
pub proof fn lemma_named_parts_same(a: Seq<Seq<char>>, b: Seq<Seq<char>>, n: nat)
    requires
        n <= a.len(),
        n <= b.len(),
        a.take(n as int) == b.take(n as int),
    ensures
        named_parts(a, n) == named_parts(b, n),
    decreases n,
{
    if n > 0 {
        let k = (n - 1) as nat;
        assert(a.take(k as int) =~= a.take(n as int).take(k as int));
        assert(b.take(k as int) =~= b.take(n as int).take(k as int));
        lemma_named_parts_same(a, b, k);
        assert(a[n - 1] == a.take(n as int)[n - 1]);
        assert(b[n - 1] == b.take(n as int)[n - 1]);
    }
}

/// Joining loses nothing: texts without `c`, joined by it, are the parts again.
pub proof fn lemma_split_joined(parts: Seq<Seq<char>>, c: char, separator: Seq<char>)
    requires
        parts.len() > 0,
        separator == seq![c],
        forall|i: int| 0 <= i < parts.len() ==> !(#[trigger] parts[i]).contains(c),
    ensures
        split(joined(parts, separator), c) == parts,
    decreases parts.len(),
{
    if parts.len() == 1 {
        let one = parts[0];
        let none: Seq<char> = seq![];
        lemma_split_append(none, one, c);
        assert(none + one =~= one);
        assert(split(none, c) =~= seq![none]);
        assert(split(none, c).drop_last().push(split(none, c).last() + one) =~= parts);
    } else {
        let front = parts.drop_last();
        assert forall|i: int| 0 <= i < front.len() implies !(#[trigger] front[i]).contains(c) by {
            assert(front[i] == parts[i]);
        }
        lemma_split_joined(front, c, separator);
        let text = joined(front, separator);
        let slashed = text + separator;
        assert(slashed.drop_last() =~= text);
        assert(slashed.last() == c);
        let none: Seq<char> = seq![];
        assert(split(slashed, c) == front.push(none));
        lemma_split_append(slashed, parts.last(), c);
        assert(front.push(none).drop_last() =~= front);
        assert(none + parts.last() =~= parts.last());
        assert(front.push(parts.last()) =~= parts);
    }
}

/// A text has nothing before its first `c` where it is empty or begins with it.
proof fn lemma_split_first(s: Seq<char>, c: char)
    ensures
        split(s, c).len() > 0,
        split(s, c)[0].len() == 0 <==> s.len() == 0 || s[0] == c,
    decreases s.len(),
{
    if s.len() > 0 {
        let before = s.drop_last();
        lemma_split_first(before, c);
        lemma_split_joins_back(before, c);
        if s.len() > 1 {
            assert(before[0] == s[0]);
        }
        if split(before, c).len() == 1 {
            assert(split(before, c)[0] == before);
            assert(!before.contains(c));
        }
    }
}

/// The first parts, joined, stand at the front of all parts, joined.
proof fn lemma_joined_front(parts: Seq<Seq<char>>, separator: Seq<char>, m: int)
    requires
        0 <= m <= parts.len(),
    ensures
        joined(parts.take(m), separator).len() <= joined(parts, separator).len(),
        joined(parts, separator).take(joined(parts.take(m), separator).len() as int) == joined(
            parts.take(m),
            separator,
        ),
    decreases parts.len(),
{
    let all = joined(parts, separator);
    let some = joined(parts.take(m), separator);
    if m == parts.len() {
        assert(parts.take(m) =~= parts);
        assert(all.take(some.len() as int) =~= some);
    } else {
        let front = parts.drop_last();
        lemma_joined_front(front, separator, m);
        assert(front.take(m) =~= parts.take(m));
        if parts.len() > 1 {
            assert(all.take(some.len() as int) =~= joined(front, separator).take(
                some.len() as int,
            ));
        } else {
            assert(all.take(some.len() as int) =~= some);
        }
    }
}

proof fn lemma_named_end(parts: Seq<Seq<char>>, n: nat)
    requires
        n <= parts.len(),
    ensures
        named_end(parts, n) <= n,
        named_end(parts, n) > 0 ==> names_component(
            parts[named_end(parts, n) - 1],
            named_end(parts, n) - 1,
        ),
        named_parts(parts, named_end(parts, n)) == named_parts(parts, n),
    decreases n,
{
    if n > 0 && !names_component(parts[n - 1], n - 1) {
        lemma_named_end(parts, (n - 1) as nat);
    }
}

proof fn lemma_parts_before(parts: Seq<Seq<char>>, k: nat, i: nat, n: nat)
    requires
        i < n <= parts.len(),
        named_parts(parts, i).len() <= k,
        named_parts(parts, i + 1).len() > k,
    ensures
        parts_before(parts, k, n) == i,
        named_parts(parts, n).len() > k,
    decreases n,
{
    if n > i + 1 {
        lemma_parts_before(parts, k, i, (n - 1) as nat);
        let before = named_parts(parts, (n - 1) as nat);
        assert(named_parts(parts, n).len() >= before.len());
    } else {
        assert(parts_before(parts, k, i) == i);
    }
}

proof fn lemma_name_is_inside(parts: Seq<Seq<char>>, k: nat, n: nat)
    requires
        n <= parts.len(),
        named_parts(parts, n).len() > k,
    ensures
        parts_before(parts, k, n) < named_end(parts, n),
    decreases n,
{
    if n > 0 {
        let m = (n - 1) as nat;
        if names_component(parts[n - 1], n - 1) {
            lemma_parts_before_bound(parts, k, m);
        } else {
            lemma_name_is_inside(parts, k, m);
        }
    }
}

proof fn lemma_parts_before_bound(parts: Seq<Seq<char>>, k: nat, n: nat)
    ensures
        parts_before(parts, k, n) <= n,
    decreases n,
{
    if n > 0 {
        lemma_parts_before_bound(parts, k, (n - 1) as nat);
    }
}

/// A path that is cut behind one of its names has the components up to there.
proof fn lemma_front_components(path: Seq<char>, n: nat)
    requires
        n <= split(path, '/').len(),
        n > 0 ==> names_component(split(path, '/')[n - 1], n - 1),
    ensures
        components(front_text(path, n)) == (if absolute(path) {
            seq!["/"@]
        } else {
            seq![]
        }) + named_parts(split(path, '/'), n),
        front_text(path, n).len() <= path.len(),
        path.take(front_text(path, n).len() as int) == front_text(path, n),
{
    let parts = split(path, '/');
    let front = front_text(path, n);
    reveal_strlit("/");
    assert("/"@ =~= seq!['/']);
    lemma_split_joins_back(path, '/');
    if n > 0 {
        let some = parts.take(n as int);
        lemma_joined_front(parts, "/"@, n as int);
        assert forall|i: int| 0 <= i < some.len() implies !(#[trigger] some[i]).contains('/') by {
            assert(some[i] == parts[i]);
        }
        lemma_split_joined(some, '/', "/"@);
        assert(some.last() == parts[n - 1]);
        assert(front.len() > 0);
        assert(front[0] == path[0]);
        assert(some.take(n as int) =~= parts.take(n as int));
        lemma_named_parts_same(some, parts, n);
        assert(components(front) =~= (if absolute(path) {
            seq!["/"@]
        } else {
            seq![]
        }) + named_parts(parts, n));
    } else {
        let none: Seq<char> = seq![];
        assert(split(none, '/') =~= seq![none]);
        assert(named_parts(seq![none], 1) == named_parts(seq![none], 0));
        if absolute(path) {
            assert(front.drop_last() =~= none);
            assert(split(front, '/') =~= seq![none, none]);
            assert(named_parts(seq![none, none], 2) == named_parts(seq![none, none], 1));
            assert(named_parts(seq![none, none], 1) == named_parts(seq![none, none], 0));
            assert(path.take(1) =~= front);
            assert(components(front) =~= seq!["/"@]);
        } else {
            assert(components(front) =~= seq![]);
            assert(path.take(0) =~= front);
        }
    }
}

proof fn lemma_names_have_no_slash(path: Seq<char>, n: nat)
    requires
        n <= split(path, '/').len(),
    ensures
        !named_parts(split(path, '/'), n).contains("/"@),
    decreases n,
{
    let parts = split(path, '/');
    if n > 0 {
        let m = (n - 1) as nat;
        lemma_names_have_no_slash(path, m);
        lemma_split_joins_back(path, '/');
        reveal_strlit("/");
        assert("/"@[0] == '/');
        assert("/"@.contains('/'));
        assert(!parts[n - 1].contains('/'));
        let all = named_parts(parts, n);
        assert forall|i: int| 0 <= i < all.len() implies all[i] != "/"@ by {
            let before = named_parts(parts, m);
            if i < before.len() {
                assert(all[i] == before[i]);
                assert(before.contains(before[i]));
            }
        }
    }
}

/// The parent of a path has its components but the last, and is what the path begins with. All paths
/// have one but the root and the empty path.
pub proof fn lemma_parent(path: Seq<char>)
    ensures
        parent(path) is None <==> components(path).len() == 0 || components(path).last() == "/"@,
        parent(path) matches Some(dir) ==> {
            &&& components(dir) == components(path).drop_last()
            &&& dir.len() < path.len()
            &&& path.take(dir.len() as int) == dir
        },
{
    let parts = split(path, '/');
    let n = parts.len();
    let last = named_end(parts, n);
    let root: Seq<Seq<char>> = if absolute(path) {
        seq!["/"@]
    } else {
        seq![]
    };
    lemma_named_end(parts, n);
    assert(components(path) =~= root + named_parts(parts, last));
    if last > 0 {
        let m = (last - 1) as nat;
        let kept = named_end(parts, m);
        let names = named_parts(parts, last);
        lemma_named_end(parts, m);
        lemma_front_components(path, kept);
        lemma_front_components(path, last);
        lemma_names_have_no_slash(path, last);
        assert(names.last() == parts[last - 1]);
        assert(names.contains(names[names.len() - 1]));
        assert(names.drop_last() =~= named_parts(parts, kept));
        assert((root + names).drop_last() =~= root + names.drop_last());
        let some = parts.take(last as int);
        assert(some.drop_last() =~= parts.take(m as int));
        assert(some.last() == parts[last - 1]);
        reveal_strlit("/");
        lemma_split_first(path, '/');
        if kept > 0 {
            assert(parts.take(m as int).take(kept as int) =~= parts.take(kept as int));
            lemma_joined_front(parts.take(m as int), "/"@, kept as int);
            assert(joined(some, "/"@).len() > joined(parts.take(m as int), "/"@).len());
        } else if absolute(path) {
            assert(last >= 2);
            assert(joined(some, "/"@).len() >= 2);
        }
    }
}

/// What stands in front of a separator is cut as if it stood alone.
pub proof fn lemma_split_front(front: Seq<char>, rest: Seq<char>, c: char)
    ensures
        split(front + seq![c] + rest, c).len() > split(front, c).len(),
        split(front + seq![c] + rest, c).take(split(front, c).len() as int) == split(front, c),
    decreases rest.len(),
{
    let n = split(front, c).len() as int;
    let all = front + seq![c] + rest;
    if rest.len() == 0 {
        assert(all.drop_last() =~= front);
        assert(split(all, c).take(n) =~= split(front, c));
    } else {
        let less = front + seq![c] + rest.drop_last();
        lemma_split_front(front, rest.drop_last(), c);
        assert(all.drop_last() =~= less);
        assert(all.last() == rest.last());
        assert(split(all, c).take(n) =~= split(less, c).take(n));
    }
}

/// A text is cut at a separator into what stands before it and what stands behind it, each cut as if it
/// stood alone.
pub proof fn lemma_split_apart(a: Seq<char>, b: Seq<char>, c: char)
    ensures
        split(a + seq![c] + b, c) == split(a, c) + split(b, c),
    decreases b.len(),
{
    let all = a + seq![c] + b;
    let none: Seq<char> = seq![];
    if b.len() == 0 {
        assert(all.drop_last() =~= a);
        assert(split(b, c) =~= seq![none]);
        assert(split(all, c) =~= split(a, c) + split(b, c));
    } else {
        let less = b.drop_last();
        lemma_split_apart(a, less, c);
        lemma_split_nonempty(less, c);
        assert(all.drop_last() =~= a + seq![c] + less);
        assert(all.last() == b.last());
        assert((split(a, c) + split(less, c)).last() == split(less, c).last());
        assert(split(all, c) =~= split(a, c) + split(b, c));
    }
}

/// A text without the separator is not cut.
pub proof fn lemma_split_whole(s: Seq<char>, c: char)
    requires
        !s.contains(c),
    ensures
        split(s, c) == seq![s],
{
    let none: Seq<char> = seq![];
    lemma_split_append(none, s, c);
    assert(none + s =~= s);
    assert(split(none, c) =~= seq![none]);
    assert(split(s, c) =~= seq![s]);
}

/// Joining one step to a path adds one component.
pub proof fn lemma_join_adds_component(base: Seq<char>, step: Seq<char>)
    requires
        one_component(step),
    ensures
        components(path_join(base, step)) == components(base).push(step),
{
    let steps = seq![step];
    lemma_join_adds_steps(base, steps);
    assert(components(base) + steps =~= components(base).push(step));
}

/// Where the steps of a path, of which each becomes one component, stand among its parts once they
/// are joined to `base`.
proof fn lemma_joined_parts(base: Seq<char>, steps: Seq<Seq<char>>)
    requires
        steps.len() > 0,
        forall|i: int| 0 <= i < steps.len() ==> one_component(#[trigger] steps[i]),
    ensures
        ({
            let path = path_join(base, joined(steps, "/"@));
            let parts = split(path, '/');
            let n = parts.len() - steps.len();
            &&& absolute(path) == absolute(base)
            &&& n >= 0
            &&& parts.skip(n) == steps
            &&& named_parts(parts, n as nat) == named_parts(
                split(base, '/'),
                split(base, '/').len(),
            )
        }),
{
    let text = joined(steps, "/"@);
    let none: Seq<char> = seq![];
    let slashed = if base.len() == 0 || base.last() == '/' {
        base
    } else {
        base.push('/')
    };
    let path = path_join(base, text);
    reveal_strlit("/");
    lemma_joined_step(steps);
    assert(path =~= slashed + text);
    lemma_split_nonempty(base, '/');
    let old_parts = split(base, '/');
    let mid_parts = split(slashed, '/');
    if slashed != base {
        assert(slashed.drop_last() =~= base);
        assert(mid_parts == old_parts.push(none));
    }
    assert(mid_parts.last() =~= none);
    let n = (mid_parts.len() - 1) as nat;
    assert(named_parts(mid_parts, n + 1) == named_parts(mid_parts, n));
    if slashed != base {
        assert(mid_parts.take(n as int) =~= old_parts.take(n as int));
        lemma_named_parts_same(mid_parts, old_parts, n);
    }
    lemma_split_append_joined(slashed, steps);
    let parts = split(path, '/');
    assert(parts.skip(n as int) =~= steps);
    assert(parts.take(n as int) =~= mid_parts.take(n as int));
    lemma_named_parts_same(parts, mid_parts, n);
    if base.len() > 0 {
        assert(path[0] == base[0]);
    }
}

proof fn lemma_split_append_joined(front: Seq<char>, steps: Seq<Seq<char>>)
    requires
        split(front, '/').last().len() == 0,
        steps.len() > 0,
        forall|i: int| 0 <= i < steps.len() ==> !(#[trigger] steps[i]).contains('/'),
    ensures
        split(front + joined(steps, "/"@), '/') == split(front, '/').drop_last() + steps,
    decreases steps.len(),
{
    let before = split(front, '/').drop_last();
    let last = steps[steps.len() - 1];
    let none: Seq<char> = seq![];
    reveal_strlit("/");
    lemma_split_nonempty(front, '/');
    if steps.len() == 1 {
        lemma_split_append(front, last, '/');
        assert(split(front, '/').last() + last =~= last);
        assert(before.push(last) =~= before + steps);
    } else {
        let some = steps.drop_last();
        assert forall|i: int| 0 <= i < some.len() implies !(#[trigger] some[i]).contains('/') by {
            assert(some[i] == steps[i]);
        }
        lemma_split_append_joined(front, some);
        let text = front + joined(some, "/"@);
        let slashed = text.push('/');
        assert(slashed.drop_last() =~= text);
        assert(split(slashed, '/') =~= (before + some).push(none));
        lemma_split_append(slashed, last, '/');
        assert(none + last =~= last);
        assert(slashed + last =~= front + joined(steps, "/"@));
        assert((before + some).push(none).drop_last() =~= before + some);
        assert((before + some).push(last) =~= before + steps);
    }
}

/// Steps, joined, begin and end with something else than `/`.
proof fn lemma_joined_step(steps: Seq<Seq<char>>)
    requires
        steps.len() > 0,
        forall|i: int| 0 <= i < steps.len() ==> one_component(#[trigger] steps[i]),
    ensures
        joined(steps, "/"@).len() > 0,
        joined(steps, "/"@)[0] != '/',
        joined(steps, "/"@).last() != '/',
    decreases steps.len(),
{
    let last = steps[steps.len() - 1];
    assert(one_component(last));
    assert(last.contains(last[last.len() - 1]));
    assert(last.contains(last[0]));
    if steps.len() > 1 {
        let some = steps.drop_last();
        assert forall|i: int| 0 <= i < some.len() implies one_component(#[trigger] some[i]) by {
            assert(some[i] == steps[i]);
        }
        lemma_joined_step(some);
        assert(joined(steps, "/"@)[0] == joined(some, "/"@)[0]);
        assert(joined(steps, "/"@).last() == last.last());
    }
}

/// Joining steps one by one, or all of them at once, is the same.
pub proof fn lemma_join_joined(base: Seq<char>, steps: Seq<Seq<char>>, last: Seq<char>)
    requires
        steps.len() > 0,
        forall|i: int| 0 <= i < steps.len() ==> one_component(#[trigger] steps[i]),
        one_component(last),
    ensures
        path_join(path_join(base, joined(steps, "/"@)), last) == path_join(
            base,
            joined(steps.push(last), "/"@),
        ),
{
    let head = joined(steps, "/"@);
    let all = steps.push(last);
    let text = joined(all, "/"@);
    reveal_strlit("/");
    assert("/"@ =~= seq!['/']);
    assert(all.drop_last() =~= steps);
    lemma_joined_step(steps);
    assert(last.contains(last[0]));
    assert(text =~= head + seq!['/'] + last);
    assert(text[0] == head[0]);
    let up = path_join(base, head);
    assert(up.last() == head.last());
    assert(path_join(up, last) =~= path_join(base, text));
}

/// Joining steps to a path adds them to its components.
pub proof fn lemma_join_adds_steps(base: Seq<char>, steps: Seq<Seq<char>>)
    requires
        steps.len() > 0,
        forall|i: int| 0 <= i < steps.len() ==> one_component(#[trigger] steps[i]),
    ensures
        components(path_join(base, joined(steps, "/"@))) == components(base) + steps,
{
    let path = path_join(base, joined(steps, "/"@));
    let parts = split(path, '/');
    let n = (parts.len() - steps.len()) as nat;
    lemma_joined_parts(base, steps);
    lemma_all_named(parts, n, parts.len());
    assert(parts.subrange(n as int, parts.len() as int) =~= steps);
    assert(components(path) =~= components(base) + steps);
}

proof fn lemma_all_named(parts: Seq<Seq<char>>, n: nat, m: nat)
    requires
        n <= m <= parts.len(),
        forall|i: int| n <= i < m ==> one_component(#[trigger] parts.skip(n as int)[i - n]),
    ensures
        named_parts(parts, m) == named_parts(parts, n) + parts.subrange(n as int, m as int),
    decreases m,
{
    if n < m {
        assert(one_component(parts.skip(n as int)[m - 1 - n]));
        lemma_all_named(parts, n, (m - 1) as nat);
    }
    assert(named_parts(parts, m) =~= named_parts(parts, n) + parts.subrange(n as int, m as int));
}

/// What was joined to a path is left behind it.
pub proof fn lemma_relative_text(base: Seq<char>, steps: Seq<Seq<char>>)
    requires
        components(base).len() > 0,
        steps.len() > 0,
        forall|i: int| 0 <= i < steps.len() ==> one_component(#[trigger] steps[i]),
    ensures
        relative_text(path_join(base, joined(steps, "/"@)), base) == joined(steps, "/"@),
{
    let path = path_join(base, joined(steps, "/"@));
    let parts = split(path, '/');
    let n = (parts.len() - steps.len()) as nat;
    lemma_joined_parts(base, steps);
    lemma_join_adds_steps(base, steps);
    assert(parts[n as int] == parts.skip(n as int)[0]);
    assert(one_component(steps[0]));
    assert(named_parts(parts, n + 1) == named_parts(parts, n).push(parts[n as int]));
    let names = named_parts(parts, n).len();
    lemma_parts_before(parts, names, n, parts.len());
    assert(parts[parts.len() - 1] == steps[steps.len() - 1]);
    assert(one_component(steps[steps.len() - 1]));
    assert(named_end(parts, parts.len()) == parts.len());
    assert(parts.subrange(n as int, parts.len() as int) =~= steps);
}

// ---------------------------------------------------------------------------
// Functions
// ---------------------------------------------------------------------------

/// The parts of a text between the characters `c`.
pub fn split_at_char(s: &str, c: char) -> (out: Vec<String>)
    ensures
        texts(out@) == split(s@, c),
        out.len() > 0,
{
    let chars = chars_of(s);
    let mut out: Vec<String> = Vec::new();
    let mut current = String::new();
    assert(texts(out@).push(current@) =~= split(s@.take(0), c));
    for i in 0..chars.len()
        invariant
            chars@ == s@,
            texts(out@).push(current@) == split(s@.take(i as int), c),
    {
        let ghost before = texts(out@).push(current@);
        assert(s@.take(i + 1).drop_last() =~= s@.take(i as int));
        assert(s@.take(i + 1).last() == s@[i as int]);
        if chars[i] == c {
            let ghost done = texts(out@);
            let ghost part = current@;
            out.push(current);
            current = String::new();
            assert(texts(out@) =~= done.push(part));
            assert(current@ =~= seq![]);
            assert(texts(out@).push(current@) =~= before.push(seq![]));
        } else {
            assert(before.drop_last() =~= texts(out@));
            current.push(chars[i]);
            assert(texts(out@).push(current@) =~= before.drop_last().push(
                before.last().push(s@[i as int]),
            ));
        }
    }
    assert(s@.take(s@.len() as int) =~= s@);
    let ghost done = texts(out@);
    let ghost part = current@;
    out.push(current);
    assert(texts(out@) =~= done.push(part));
    out
}

/// Whether a path starts at the root.
pub fn is_absolute(path: &str) -> (out: bool)
    ensures
        out == absolute(path@),
{
    path.unicode_len() > 0 && path.get_char(0) == '/'
}

/// The path `part` as seen from `base`.
pub fn join_path(base: &str, part: &str) -> (out: String)
    ensures
        out@ == path_join(base@, part@),
{
    if is_absolute(part) {
        return part.to_owned();
    }
    let n: usize = base.unicode_len();
    let mut out = base.to_owned();
    if n > 0 && base.get_char(n - 1) != '/' {
        out.push('/');
        assert(out@ =~= base@ + seq!['/']);
    }
    out.append(part);
    out
}

/// Whether the part of a path at position `i` names a component.
fn is_named(part: &str, i: usize) -> (res: bool)
    ensures
        res == names_component(part@, i as int),
{
    part.unicode_len() > 0 && (i == 0 || !same_text(part, "."))
}

/// The components of a path.
pub fn components_of(path: &str) -> (out: Vec<String>)
    ensures
        texts(out@) == components(path@),
{
    let parts = split_at_char(path, '/');
    let ghost all = split(path@, '/');
    let mut out: Vec<String> = Vec::new();
    let rooted = is_absolute(path);
    if rooted {
        out.push("/".to_owned());
    }
    let ghost front: Seq<Seq<char>> = if rooted { seq!["/"@] } else { seq![] };
    assert(texts(out@) =~= front + named_parts(all, 0));
    for i in 0..parts.len()
        invariant
            all == texts(parts@),
            texts(out@) == front + named_parts(all, i as nat),
    {
        let part = &parts[i];
        assert(part@ == all[i as int]);
        if is_named(part.as_str(), i) {
            let ghost before = texts(out@);
            out.push(part.clone());
            assert(texts(out@) =~= before.push(all[i as int]));
            assert(texts(out@) =~= front + named_parts(all, (i + 1) as nat));
        }
    }
    assert(front + named_parts(all, all.len()) =~= components(path@));
    out
}

/// The last component of a path, where it is a name.
pub fn file_name_of(path: &str) -> (out: Option<String>)
    ensures
        opt_text(out) == file_name(path@),
{
    let all = components_of(path);
    if all.len() == 0 {
        return None;
    }
    let last = &all[all.len() - 1];
    assert(last@ == components(path@).last());
    if same_text(last.as_str(), "/") || same_text(last.as_str(), ".") || same_text(
        last.as_str(),
        "..",
    ) {
        None
    } else {
        Some(last.clone())
    }
}

/// The parts from `from` to `to`, with `/` between them.
fn join_parts(parts: &Vec<String>, from: usize, to: usize) -> (out: String)
    requires
        from <= to <= parts@.len(),
    ensures
        out@ == joined(texts(parts@).subrange(from as int, to as int), "/"@),
{
    let ghost whole = texts(parts@);
    let mut picked: Vec<String> = Vec::new();
    let mut i: usize = from;
    while i < to
        invariant
            from <= i <= to <= parts@.len(),
            whole == texts(parts@),
            texts(picked@) =~= whole.subrange(from as int, i as int),
        decreases to - i,
    {
        let ghost before = texts(picked@);
        picked.push(parts[i].clone());
        assert(texts(picked@) =~= before.push(whole[i as int]));
        i += 1;
    }
    join_texts(&picked, "/")
}

/// Of the first `n` parts, how many there are up to the last one that names a component.
fn end_of_names(parts: &Vec<String>, n: usize) -> (out: usize)
    requires
        n <= parts@.len(),
    ensures
        out == named_end(texts(parts@), n as nat),
        out <= n,
{
    let ghost all = texts(parts@);
    let mut out: usize = n;
    while out > 0 && !is_named(parts[out - 1].as_str(), out - 1)
        invariant
            out <= n <= parts@.len(),
            all == texts(parts@),
            named_end(all, n as nat) == named_end(all, out as nat),
        decreases out,
    {
        assert(all[out - 1] == parts@[out - 1]@);
        out -= 1;
    }
    proof {
        if out > 0 {
            assert(all[out - 1] == parts@[out - 1]@);
        }
    }
    out
}

/// The text of a path, of which these are the parts, up to the end of its part number `n`.
fn front_text_of(path: &str, parts: &Vec<String>, n: usize) -> (out: String)
    requires
        texts(parts@) == split(path@, '/'),
        n <= parts@.len(),
    ensures
        out@ == front_text(path@, n as nat),
{
    if n > 0 {
        assert(texts(parts@).subrange(0, n as int) =~= texts(parts@).take(n as int));
        join_parts(parts, 0, n)
    } else if is_absolute(path) {
        "/".to_owned()
    } else {
        let out = String::new();
        assert(out@ =~= seq![]);
        out
    }
}

/// The path without its last component.
pub fn parent_of(path: &str) -> (out: Option<String>)
    ensures
        opt_text(out) == parent(path@),
{
    let parts = split_at_char(path, '/');
    assert(texts(parts@).len() == parts@.len());
    let last = end_of_names(&parts, parts.len());
    if last == 0 {
        return None;
    }
    let kept = end_of_names(&parts, last - 1);
    Some(front_text_of(path, &parts, kept))
}

/// Whether the components of two paths are the same.
pub fn same_path(a: &str, b: &str) -> (res: bool)
    ensures
        res == (components(a@) == components(b@)),
{
    let left = components_of(a);
    let right = components_of(b);
    let ghost x = components(a@);
    let ghost y = components(b@);
    assert(x.len() == left@.len() && y.len() == right@.len());
    if left.len() != right.len() {
        return false;
    }
    for i in 0..left.len()
        invariant
            x == texts(left@),
            y == texts(right@),
            left@.len() == right@.len(),
            x == components(a@),
            y == components(b@),
            forall|j: int| 0 <= j < i ==> x[j] == y[j],
    {
        assert(x[i as int] == left@[i as int]@ && y[i as int] == right@[i as int]@);
        if !same_text(left[i].as_str(), right[i].as_str()) {
            return false;
        }
    }
    assert(x =~= y);
    true
}

/// Whether the components of `path` begin with those of `root`.
fn lies_under(path: &str, root: &str) -> (res: bool)
    ensures
        res == is_under(path@, root@),
{
    let inner = components_of(path);
    let outer = components_of(root);
    let ghost a = components(path@);
    let ghost b = components(root@);
    assert(a.len() == inner@.len() && b.len() == outer@.len());
    if inner.len() < outer.len() {
        return false;
    }
    for i in 0..outer.len()
        invariant
            a == texts(inner@),
            b == texts(outer@),
            a == components(path@),
            b == components(root@),
            outer.len() <= inner.len(),
            forall|j: int| 0 <= j < i ==> a[j] == b[j],
    {
        assert(a[i as int] == inner@[i as int]@ && b[i as int] == outer@[i as int]@);
        if !same_text(inner[i].as_str(), outer[i].as_str()) {
            assert(a.take(b.len() as int)[i as int] != b[i as int]);
            return false;
        }
    }
    assert(a.take(b.len() as int) =~= b);
    true
}

/// How many of the parts stand before name number `k`, counted from zero.
fn count_before(parts: &Vec<String>, k: usize) -> (out: usize)
    ensures
        out == parts_before(texts(parts@), k as nat, parts@.len()),
        out <= parts@.len(),
{
    let ghost all = texts(parts@);
    let mut names: usize = 0;
    let mut i: usize = 0;
    while i < parts.len()
        invariant
            i <= parts@.len(),
            all == texts(parts@),
            names == named_parts(all, i as nat).len(),
            names <= k,
            names <= i,
        decreases parts@.len() - i,
    {
        assert(all[i as int] == parts@[i as int]@);
        if is_named(parts[i].as_str(), i) {
            if names == k {
                proof {
                    lemma_parts_before(all, k as nat, i as nat, all.len());
                }
                return i;
            }
            names += 1;
        }
        i += 1;
    }
    i
}

/// What is left of `path` behind the components of `root`, where `path` lies under `root`.
pub fn relative_text_of(path: &str, root: &str) -> (out: Option<String>)
    ensures
        opt_text(out) == (if is_under(path@, root@) {
            Some(relative_text(path@, root@))
        } else {
            None
        }),
{
    if !lies_under(path, root) {
        return None;
    }
    let parts = split_at_char(path, '/');
    let inner = components_of(path);
    let outer = components_of(root);
    assert(texts(parts@).len() == parts@.len());
    assert(components(path@).len() == inner@.len() && components(root@).len() == outer@.len());
    let last = end_of_names(&parts, parts.len());
    let gone = outer.len();
    if gone == 0 {
        return Some(front_text_of(path, &parts, last));
    }
    if inner.len() <= gone {
        let out = String::new();
        assert(out@ =~= seq![]);
        return Some(out);
    }
    let names: usize = if is_absolute(path) {
        gone - 1
    } else {
        gone
    };
    let from = count_before(&parts, names);
    proof {
        lemma_name_is_inside(texts(parts@), names as nat, texts(parts@).len());
    }
    Some(join_parts(&parts, from, last))
}

} // verus!
