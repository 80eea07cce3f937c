//! Paths as sequences of components, the way `std::path::Path` reads a Unix
//! path: a leading `/` is the root component, empty segments and interior
//! `.` segments are skipped, and a leading `.` of a relative path is kept.
//! The root component is written `['/']`, which no other component can be.
use vstd::prelude::*;
use crate::text::{has_char, lemma_split_concat, lemma_split_join, lemma_split_on_nonempty, lemma_split_pieces, chars_eq, chars_of, concat_chars, has_prefix, join, join_chars, slice_chars, split_chars, split_on, starts_with_chars};

verus! {

/// The components held in a vector of character vectors.
pub open spec fn cview(d: Vec<Vec<char>>) -> Seq<Seq<char>> {
    d@.map_values(|v: Vec<char>| v@)
}

/// The root component.
pub open spec fn root_component() -> Seq<char> {
    seq!['/']
}

/// Segment `i` of a split path is a component of its own.
pub open spec fn keeps_segment(segs: Seq<Seq<char>>, i: int) -> bool {
    segs[i].len() > 0 && (segs[i] != seq!['.'] || i == 0)
}

/// The named components among the `/`-separated segments.
pub open spec fn named_parts(segs: Seq<Seq<char>>) -> Seq<Seq<char>>
    decreases segs.len(),
{
    if segs.len() == 0 {
        Seq::<Seq<char>>::empty()
    } else {
        let r = named_parts(segs.drop_last());
        if keeps_segment(segs, segs.len() - 1) {
            r.push(segs.last())
        } else {
            r
        }
    }
}

/// The path starts at the root.
pub open spec fn is_rooted(s: Seq<char>) -> bool {
    s.len() > 0 && s[0] == '/'
}

/// The components of a path, as `Path::components` yields them.
pub open spec fn components(s: Seq<char>) -> Seq<Seq<char>> {
    if is_rooted(s) {
        seq![root_component()] + named_parts(split_on(s, '/'))
    } else {
        named_parts(split_on(s, '/'))
    }
}

/// `d` names a directory strictly above the path with components `c`.
pub open spec fn is_proper_ancestor(d: Seq<Seq<char>>, c: Seq<Seq<char>>) -> bool {
    d.len() < c.len() && c.take(d.len() as int) == d
}

/// The path spelled from its components.
pub open spec fn render(c: Seq<Seq<char>>) -> Seq<char> {
    if c.len() > 0 && c[0] == root_component() {
        seq!['/'] + join(c.skip(1), seq!['/'])
    } else {
        join(c, seq!['/'])
    }
}

/// One of the components of `s` is `..`.
pub open spec fn has_parent_component(s: Seq<char>) -> bool {
    components(s).contains(seq!['.', '.'])
}

/// A component after the first: non-empty, without `/`, and not `.`.
pub open spec fn plain_component(x: Seq<char>) -> bool {
    x.len() > 0 && !has_char(x, '/') && x != seq!['.']
}

/// Components as `Path::components` can yield them: the root or a
/// non-empty name without `/` first, plain names after it.
pub open spec fn valid_components(c: Seq<Seq<char>>) -> bool {
    &&& forall|i: int| 1 <= i < c.len() ==> plain_component(#[trigger] c[i])
    &&& c.len() > 0 ==> (c[0] == root_component() || (c[0].len() > 0 && !has_char(c[0], '/')))
}

proof fn lemma_named_parts_shape(segs: Seq<Seq<char>>)
    requires
        forall|i: int| 0 <= i < segs.len() ==> !has_char(#[trigger] segs[i], '/'),
    ensures
        forall|j: int|
            0 <= j < named_parts(segs).len() ==> (#[trigger] named_parts(segs)[j]).len() > 0 && !has_char(
                named_parts(segs)[j],
                '/',
            ) && (named_parts(segs)[j] == seq!['.'] ==> j == 0 && segs.len() > 0 && segs[0] == seq!['.']),
    decreases segs.len(),
{
    if segs.len() > 0 {
        let init = segs.drop_last();
        assert forall|i: int| 0 <= i < init.len() implies !has_char(#[trigger] init[i], '/') by {
            assert(init[i] == segs[i]);
        }
        lemma_named_parts_shape(init);
        let r = named_parts(init);
        assert(r.len() <= init.len()) by {
            lemma_named_parts_len(init);
        }
        assert forall|j: int| 0 <= j < named_parts(segs).len() implies (#[trigger] named_parts(segs)[j]).len() > 0
            && !has_char(named_parts(segs)[j], '/') && (named_parts(segs)[j] == seq!['.'] ==> j == 0
            && segs.len() > 0 && segs[0] == seq!['.']) by {
            if j < r.len() {
                assert(named_parts(segs)[j] == r[j]);
                if r[j] == seq!['.'] {
                    assert(init[0] == segs[0]);
                }
            } else {
                let k = segs.len() - 1;
                assert(named_parts(segs)[j] == segs[k]);
                assert(keeps_segment(segs, k));
                assert(!has_char(segs[k], '/'));
                if segs[k] == seq!['.'] {
                    assert(k == 0);
                    assert(j <= k) by {
                        lemma_named_parts_len(init);
                    }
                }
            }
        }
    }
}

proof fn lemma_named_parts_len(segs: Seq<Seq<char>>)
    ensures
        named_parts(segs).len() <= segs.len(),
    decreases segs.len(),
{
    if segs.len() > 0 {
        lemma_named_parts_len(segs.drop_last());
    }
}

proof fn lemma_named_parts_all_kept(segs: Seq<Seq<char>>)
    requires
        forall|i: int| 0 <= i < segs.len() ==> keeps_segment(segs, i),
    ensures
        named_parts(segs) == segs,
    decreases segs.len(),
{
    if segs.len() > 0 {
        let init = segs.drop_last();
        assert forall|i: int| 0 <= i < init.len() implies keeps_segment(init, i) by {
            assert(keeps_segment(segs, i));
            assert(init[i] == segs[i]);
        }
        lemma_named_parts_all_kept(init);
        assert(keeps_segment(segs, segs.len() - 1));
        assert(init.push(segs.last()) =~= segs);
    }
}

proof fn lemma_named_parts_after_empty(parts: Seq<Seq<char>>)
    requires
        forall|i: int| 0 <= i < parts.len() ==> plain_component(#[trigger] parts[i]),
    ensures
        named_parts(seq![Seq::<char>::empty()] + parts) == parts,
    decreases parts.len(),
{
    let segs = seq![Seq::<char>::empty()] + parts;
    if parts.len() == 0 {
        assert(segs.drop_last() =~= Seq::<Seq<char>>::empty());
        assert(named_parts(Seq::<Seq<char>>::empty()) == Seq::<Seq<char>>::empty());
        assert(!keeps_segment(segs, 0));
    } else {
        let init = parts.drop_last();
        assert forall|i: int| 0 <= i < init.len() implies plain_component(#[trigger] init[i]) by {
            assert(init[i] == parts[i]);
        }
        lemma_named_parts_after_empty(init);
        assert(segs.drop_last() =~= seq![Seq::<char>::empty()] + init);
        assert(segs.last() == parts.last());
        assert(plain_component(parts[parts.len() - 1]));
        assert(keeps_segment(segs, segs.len() - 1));
        assert(init.push(parts.last()) =~= parts);
    }
}

/// What `components` yields is valid.
pub proof fn lemma_components_valid(s: Seq<char>)
    ensures
        valid_components(components(s)),
{
    let segs = split_on(s, '/');
    lemma_split_pieces(s, '/');
    lemma_named_parts_shape(segs);
    let np = named_parts(segs);
    let c = components(s);
    if is_rooted(s) {
        assert(s =~= Seq::<char>::empty() + seq!['/'] + s.skip(1));
        lemma_split_concat(Seq::<char>::empty(), s.skip(1), '/');
        assert(segs[0] == Seq::<char>::empty());
        assert forall|i: int| 1 <= i < c.len() implies plain_component(#[trigger] c[i]) by {
            assert(c[i] == np[i - 1]);
            if np[i - 1] == seq!['.'] {
                assert(segs[0] == seq!['.']);
                assert(segs[0].len() == 0);
            }
        }
    } else {
        assert forall|i: int| 1 <= i < c.len() implies plain_component(#[trigger] c[i]) by {
            assert(c[i] == np[i]);
        }
        if c.len() > 0 {
            assert(c[0] == np[0]);
        }
    }
}

proof fn lemma_join_starts(parts: Seq<Seq<char>>, sep: Seq<char>)
    requires
        parts.len() >= 1,
        parts[0].len() > 0,
    ensures
        join(parts, sep).len() > 0,
        join(parts, sep)[0] == parts[0][0],
    decreases parts.len(),
{
    if parts.len() > 1 {
        let init = parts.drop_last();
        assert(init[0] == parts[0]);
        lemma_join_starts(init, sep);
    }
}

/// Spelling valid components and reading them back gives them again.
pub proof fn lemma_components_render(c: Seq<Seq<char>>)
    requires
        valid_components(c),
    ensures
        components(render(c)) == c,
{
    let r = render(c);
    if c.len() == 0 {
        assert(r =~= Seq::<char>::empty());
        assert(split_on(r, '/') =~= seq![Seq::<char>::empty()]);
        assert(named_parts(seq![Seq::<char>::empty()]) =~= Seq::<Seq<char>>::empty()) by {
            assert(seq![Seq::<char>::empty()].drop_last() =~= Seq::<Seq<char>>::empty());
            assert(named_parts(Seq::<Seq<char>>::empty()) == Seq::<Seq<char>>::empty());
        }
    } else if c[0] == root_component() {
        let rest = c.skip(1);
        let j = join(rest, seq!['/']);
        assert(r == seq!['/'] + j);
        assert(r =~= Seq::<char>::empty() + seq!['/'] + j);
        lemma_split_concat(Seq::<char>::empty(), j, '/');
        assert forall|i: int| 0 <= i < rest.len() implies plain_component(#[trigger] rest[i]) by {
            assert(rest[i] == c[i + 1]);
        }
        if rest.len() == 0 {
            assert(j =~= Seq::<char>::empty());
            assert(split_on(j, '/') =~= seq![Seq::<char>::empty()]);
            let segs = seq![Seq::<char>::empty()] + seq![Seq::<char>::empty()];
            assert(split_on(r, '/') =~= segs);
            assert(named_parts(segs) =~= Seq::<Seq<char>>::empty()) by {
                assert(segs.drop_last() =~= seq![Seq::<char>::empty()]);
                assert(seq![Seq::<char>::empty()].drop_last() =~= Seq::<Seq<char>>::empty());
                assert(named_parts(Seq::<Seq<char>>::empty()) == Seq::<Seq<char>>::empty());
                assert(named_parts(seq![Seq::<char>::empty()]) == Seq::<Seq<char>>::empty());
            }
            assert(c =~= seq![root_component()]);
        } else {
            assert forall|i: int| 0 <= i < rest.len() implies !has_char(#[trigger] rest[i], '/') by {
                assert(plain_component(rest[i]));
            }
            lemma_split_join(rest, '/');
            lemma_named_parts_after_empty(rest);
            assert(seq![root_component()] + rest =~= c);
        }
    } else {
        assert forall|i: int| 0 <= i < c.len() implies !has_char(#[trigger] c[i], '/') by {
            if i > 0 {
                assert(plain_component(c[i]));
            }
        }
        lemma_split_join(c, '/');
        lemma_join_starts(c, seq!['/']);
        assert(!has_char(c[0], '/'));
        assert(c[0][0] != '/');
        assert(!is_rooted(r));
        assert forall|i: int| 0 <= i < c.len() implies keeps_segment(c, i) by {
            if i > 0 {
                assert(plain_component(c[i]));
            }
        }
        lemma_named_parts_all_kept(c);
    }
}

/// The components of a path given by its characters.
pub fn path_components(s: &[char]) -> (r: Vec<Vec<char>>)
    ensures
        r@.map_values(|v: Vec<char>| v@) == components(s@),
{
    let segs = split_chars(s, '/');
    let ghost sv = segs@.map_values(|v: Vec<char>| v@);
    let mut r: Vec<Vec<char>> = Vec::new();
    let rooted = s.len() > 0 && s[0] == '/';
    if rooted {
        let root: Vec<char> = vec!['/'];
        assert(root@ =~= root_component());
        r.push(root);
    }
    let ghost base = r@.map_values(|v: Vec<char>| v@);
    proof {
        if rooted {
            assert(base =~= seq![root_component()]);
        } else {
            assert(base =~= Seq::<Seq<char>>::empty());
        }
    }
    let mut i: usize = 0;
    while i < segs.len()
        invariant
            i <= segs@.len(),
            sv == segs@.map_values(|v: Vec<char>| v@),
            r@.map_values(|v: Vec<char>| v@) == base + named_parts(sv.take(i as int)),
        decreases segs.len() - i,
    {
        let seg = &segs[i];
        let keep = seg.len() > 0 && (i == 0 || !(seg.len() == 1 && seg[0] == '.'));
        proof {
            let t = sv.take(i + 1);
            assert(t.drop_last() =~= sv.take(i as int));
            assert(t.last() == seg@);
            if seg@.len() == 1 && seg@[0] == '.' {
                assert(seg@ =~= seq!['.']);
            }
            if seg@ == seq!['.'] {
                assert(seg@.len() == 1 && seg@[0] == '.');
            }
            assert(keep == keeps_segment(t, i as int));
        }
        if keep {
            let ghost before = r@.map_values(|v: Vec<char>| v@);
            r.push(slice_chars(seg, 0, seg.len()));
            assert(seg@.subrange(0, seg@.len() as int) =~= seg@);
            assert(r@.map_values(|v: Vec<char>| v@) =~= before.push(seg@));
        }
        i += 1;
    }
    assert(sv.take(segs@.len() as int) =~= sv);
    r
}

/// Whether the two component lists are equal.
pub fn same_components(a: &Vec<Vec<char>>, b: &Vec<Vec<char>>) -> (r: bool)
    ensures
        r == (cview(*a) == cview(*b)),
{
    let ghost av = cview(*a);
    let ghost bv = cview(*b);
    if a.len() != b.len() {
        assert(av.len() != bv.len());
        return false;
    }
    let mut i: usize = 0;
    while i < a.len()
        invariant
            a@.len() == b@.len(),
            i <= a@.len(),
            av == cview(*a),
            bv == cview(*b),
            forall|k: int| 0 <= k < i ==> av[k] == bv[k],
        decreases a.len() - i,
    {
        if !chars_eq(&a[i], &b[i]) {
            assert(av[i as int] != bv[i as int]);
            return false;
        }
        i += 1;
    }
    assert(av =~= bv);
    true
}

/// A copy of the first `k` components.
pub fn prefix_components(c: &Vec<Vec<char>>, k: usize) -> (r: Vec<Vec<char>>)
    requires
        k <= c@.len(),
    ensures
        cview(r) == cview(*c).take(k as int),
{
    let ghost cv = cview(*c);
    let mut r: Vec<Vec<char>> = Vec::new();
    let mut i: usize = 0;
    while i < k
        invariant
            k <= c@.len(),
            i <= k,
            cv == cview(*c),
            cview(r) == cv.take(i as int),
        decreases k - i,
    {
        let ghost before = cview(r);
        let piece = slice_chars(&c[i], 0, c[i].len());
        assert(piece@ =~= cv[i as int]);
        r.push(piece);
        assert(cview(r) =~= before.push(cv[i as int]));
        assert(cv.take(i + 1) =~= cv.take(i as int).push(cv[i as int]));
        i += 1;
    }
    r
}

/// Whether one of the components equals `name`.
pub fn has_component(comps: &Vec<Vec<char>>, name: &[char]) -> (b: bool)
    ensures
        b == comps@.map_values(|v: Vec<char>| v@).contains(name@),
{
    let ghost cv = comps@.map_values(|v: Vec<char>| v@);
    let mut i: usize = 0;
    while i < comps.len()
        invariant
            i <= comps@.len(),
            cv == comps@.map_values(|v: Vec<char>| v@),
            forall|k: int| 0 <= k < i ==> cv[k] != name@,
        decreases comps.len() - i,
    {
        if chars_eq(&comps[i], name) {
            assert(cv[i as int] == name@);
            return true;
        }
        i += 1;
    }
    false
}

/// Whether `d` is a prefix of `c` and shorter than it.
pub fn proper_ancestor(d: &Vec<Vec<char>>, c: &Vec<Vec<char>>) -> (b: bool)
    ensures
        b == is_proper_ancestor(
            d@.map_values(|v: Vec<char>| v@),
            c@.map_values(|v: Vec<char>| v@),
        ),
{
    let ghost dv = d@.map_values(|v: Vec<char>| v@);
    let ghost cv = c@.map_values(|v: Vec<char>| v@);
    if d.len() >= c.len() {
        return false;
    }
    let mut i: usize = 0;
    while i < d.len()
        invariant
            d@.len() < c@.len(),
            i <= d@.len(),
            dv == d@.map_values(|v: Vec<char>| v@),
            cv == c@.map_values(|v: Vec<char>| v@),
            forall|k: int| 0 <= k < i ==> dv[k] == cv[k],
        decreases d.len() - i,
    {
        if !chars_eq(&d[i], &c[i]) {
            assert(cv.take(dv.len() as int)[i as int] != dv[i as int]);
            return false;
        }
        i += 1;
    }
    assert(cv.take(dv.len() as int) =~= dv);
    true
}

/// The path spelled from its components.
pub fn render_components(c: &Vec<Vec<char>>) -> (r: Vec<char>)
    ensures
        r@ == render(c@.map_values(|v: Vec<char>| v@)),
{
    let ghost cv = c@.map_values(|v: Vec<char>| v@);
    let sep = vec!['/'];
    if c.len() > 0 && chars_eq(&c[0], &sep) {
        let mut rest: Vec<Vec<char>> = Vec::new();
        let mut i: usize = 1;
        while i < c.len()
            invariant
                1 <= i <= c@.len(),
                cv == c@.map_values(|v: Vec<char>| v@),
                rest@.map_values(|v: Vec<char>| v@) == cv.subrange(1, i as int),
            decreases c.len() - i,
        {
            let ghost before = rest@.map_values(|v: Vec<char>| v@);
            let piece = slice_chars(&c[i], 0, c[i].len());
            assert(piece@ =~= cv[i as int]);
            rest.push(piece);
            assert(rest@.map_values(|v: Vec<char>| v@) =~= before.push(cv[i as int]));
            assert(rest@.map_values(|v: Vec<char>| v@) =~= cv.subrange(1, i + 1));
            i += 1;
        }
        assert(cv.subrange(1, cv.len() as int) =~= cv.skip(1));
        assert(sep@ =~= root_component());
        let joined = join_chars(&rest, &sep);
        concat_chars(&sep, &joined)
    } else {
        proof {
            if c@.len() > 0 {
                assert(sep@ =~= root_component());
            }
        }
        join_chars(c, &sep)
    }
}

/// `b` appended to `a` as `PathBuf::push` does: an absolute `b` replaces
/// `a`, otherwise a `/` separates them unless `a` is empty or ends in one.
pub open spec fn path_join(a: Seq<char>, b: Seq<char>) -> Seq<char> {
    if has_prefix(b, "/"@) {
        b
    } else if a.len() == 0 || a.last() == '/' {
        a + b
    } else {
        a + "/"@ + b
    }
}

pub fn join_path(a: &[char], b: &[char]) -> (r: Vec<char>)
    ensures
        r@ == path_join(a@, b@),
{
    let slash = chars_of("/");
    proof {
        reveal_strlit("/");
    }
    if starts_with_chars(b, &slash) {
        let mut r: Vec<char> = Vec::new();
        r = concat_chars(&r, b);
        assert(r@ =~= b@);
        r
    } else if a.len() == 0 || a[a.len() - 1] == '/' {
        concat_chars(a, b)
    } else {
        concat_chars(&concat_chars(a, &slash), b)
    }
}

} // verus!
