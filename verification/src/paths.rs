//! Unix paths as text: file names, stems, extensions, parents, components,
//! joining, and the names derived from them (destinations, sanitised entry
//! names, `__MACOSX` names). The rules follow `std::path` on Unix.

use vstd::prelude::*;

use crate::text::{
    lemma_last_index_concat, lemma_split_pieces_lack_sep, split_on, split_on_exec, chars_of, last_index_of, lemma_last_index_bounds, push_chars, push_str, rfind_char,
    starts_with, starts_with_str, string_from_chars, strs,
};

verus! {

/// `s` is the one-character text `.`.
pub open spec fn is_dot(s: Seq<char>) -> bool {
    s.len() == 1 && s[0] == '.'
}

/// `s` is the two-character text `..`.
pub open spec fn is_dotdot(s: Seq<char>) -> bool {
    s.len() == 2 && s[0] == '.' && s[1] == '.'
}

/// The path without trailing separators and trailing `.` components (a lone
/// root `/` stays).
pub open spec fn trim_end(p: Seq<char>) -> Seq<char>
    decreases p.len(),
{
    if p.len() > 1 && p.last() == '/' {
        trim_end(p.drop_last())
    } else if p.len() >= 2 && p[p.len() - 1] == '.' && p[p.len() - 2] == '/' {
        trim_end(p.drop_last())
    } else {
        p
    }
}

/// Where the last component of a trimmed path starts.
pub open spec fn last_start(t: Seq<char>) -> int {
    last_index_of(t, '/') + 1
}

/// The final component when it is a normal name (`Path::file_name`).
pub open spec fn file_name(p: Seq<char>) -> Option<Seq<char>> {
    let t = trim_end(p);
    let s = t.skip(last_start(t));
    if s.len() == 0 || is_dot(s) || is_dotdot(s) {
        None
    } else {
        Some(s)
    }
}

/// The name without its extension (`Path::file_stem` of a file name): a
/// leading dot does not start an extension.
pub open spec fn stem(name: Seq<char>) -> Seq<char> {
    let i = last_index_of(name, '.');
    if i <= 0 {
        name
    } else {
        name.take(i)
    }
}

/// The extension of a path's file name (`Path::extension`).
pub open spec fn extension(p: Seq<char>) -> Option<Seq<char>> {
    match file_name(p) {
        None => None,
        Some(n) => {
            let i = last_index_of(n, '.');
            if i <= 0 {
                None
            } else {
                Some(n.skip(i + 1))
            }
        },
    }
}

/// `Path::with_extension`: the path cut right after the stem of its file
/// name, then `.` and `ext`; unchanged when there is no file name.
pub open spec fn with_extension(p: Seq<char>, ext: Seq<char>) -> Seq<char> {
    match file_name(p) {
        None => p,
        Some(n) => {
            let t = trim_end(p);
            t.take(t.len() - n.len()) + stem(n) + seq!['.'] + ext
        },
    }
}

/// `Path::parent`: the path without its final component (trailing
/// separators and `.` removed); `None` for the empty path and the root.
pub open spec fn parent(p: Seq<char>) -> Option<Seq<char>> {
    let t = trim_end(p);
    if t.len() == 0 || (t.len() == 1 && t[0] == '/') {
        None
    } else {
        Some(trim_end(t.take(last_start(t))))
    }
}

/// `Path::join` of a relative `x`: a separator is added unless `base` is
/// empty or already ends with one.
pub open spec fn join(base: Seq<char>, x: Seq<char>) -> Seq<char> {
    if base.len() == 0 {
        x
    } else if base.last() == '/' {
        base + x
    } else {
        base + seq!['/'] + x
    }
}

proof fn lemma_trim_end_prefix(p: Seq<char>)
    ensures
        trim_end(p).len() <= p.len(),
        trim_end(p) == p.take(trim_end(p).len() as int),
        p.len() > 0 ==> trim_end(p).len() > 0,
    decreases p.len(),
{
    if p.len() > 1 && p.last() == '/' {
        lemma_trim_end_prefix(p.drop_last());
        assert(p.drop_last().take(trim_end(p).len() as int) =~= p.take(trim_end(p).len() as int));
    } else if p.len() >= 2 && p[p.len() - 1] == '.' && p[p.len() - 2] == '/' {
        lemma_trim_end_prefix(p.drop_last());
        assert(p.drop_last().take(trim_end(p).len() as int) =~= p.take(trim_end(p).len() as int));
    } else {
        assert(p.take(p.len() as int) =~= p);
    }
}

/// Length of `trim_end(p)`.
pub fn trim_end_len(p: &[char]) -> (n: usize)
    ensures
        n == trim_end(p@).len(),
        n <= p@.len(),
        trim_end(p@) == p@.take(n as int),
{
    let mut n: usize = p.len();
    assert(p@.take(n as int) =~= p@);
    while (n > 1 && p[n - 1] == '/') || (n >= 2 && p[n - 1] == '.' && p[n - 2] == '/')
        invariant
            n <= p@.len(),
            trim_end(p@) == trim_end(p@.take(n as int)),
        decreases n,
    {
        assert(p@.take(n as int).drop_last() =~= p@.take(n - 1));
        n = n - 1;
    }
    proof {
        lemma_trim_end_prefix(p@.take(n as int));
    }
    n
}

fn copy_chars(s: &[char], lo: usize, hi: usize) -> (out: Vec<char>)
    requires
        lo <= hi <= s@.len(),
    ensures
        out@ == s@.subrange(lo as int, hi as int),
{
    let mut out: Vec<char> = Vec::new();
    let mut i = lo;
    while i < hi
        invariant
            lo <= i <= hi,
            hi <= s@.len(),
            out@ == s@.subrange(lo as int, i as int),
        decreases hi - i,
    {
        out.push(s[i]);
        i = i + 1;
        assert(out@ =~= s@.subrange(lo as int, i as int));
    }
    out
}

/// Start of the last component of `t`.
fn last_start_exec(t: &[char]) -> (i: usize)
    ensures
        i == last_start(t@),
        i <= t@.len(),
{
    proof {
        lemma_last_index_bounds(t@, '/');
    }
    let n = t.len();
    match rfind_char(t, '/') {
        Some(k) => k + 1,
        None => 0,
    }
}

/// The file name of `p`, if it has one.
pub fn file_name_exec(p: &[char]) -> (r: Option<Vec<char>>)
    ensures
        match r {
            Some(v) => file_name(p@) == Some(v@),
            None => file_name(p@) is None,
        },
{
    let n = trim_end_len(p);
    let t = copy_chars(p, 0, n);
    assert(t@ =~= trim_end(p@));
    let st = last_start_exec(t.as_slice());
    let s = copy_chars(t.as_slice(), st, n);
    assert(s@ =~= t@.skip(st as int));
    if s.len() == 0 || (s.len() == 1 && s[0] == '.') || (s.len() == 2 && s[0] == '.' && s[1]
        == '.') {
        None
    } else {
        Some(s)
    }
}

/// Stem of a file name.
pub fn stem_exec(name: &[char]) -> (r: Vec<char>)
    ensures
        r@ == stem(name@),
{
    proof {
        lemma_last_index_bounds(name@, '.');
    }
    match rfind_char(name, '.') {
        Some(i) => {
            if i == 0 {
                copy_chars(name, 0, name.len())
            } else {
                copy_chars(name, 0, i)
            }
        },
        None => copy_chars(name, 0, name.len()),
    }
}

/// Extension of the file name of `p`, if any.
pub fn extension_exec(p: &[char]) -> (r: Option<Vec<char>>)
    ensures
        match r {
            Some(v) => extension(p@) == Some(v@),
            None => extension(p@) is None,
        },
{
    match file_name_exec(p) {
        None => None,
        Some(n) => {
            proof {
                lemma_last_index_bounds(n@, '.');
            }
            let len = n.len();
            match rfind_char(n.as_slice(), '.') {
                Some(i) => {
                    if i == 0 {
                        None
                    } else {
                        Some(copy_chars(n.as_slice(), i + 1, len))
                    }
                },
                None => None,
            }
        },
    }
}

/// `p` with its extension replaced by `ext`.
pub fn with_extension_exec(p: &[char], ext: &str) -> (r: Vec<char>)
    ensures
        r@ == with_extension(p@, ext@),
{
    match file_name_exec(p) {
        None => copy_chars(p, 0, p.len()),
        Some(n) => {
            let tn = trim_end_len(p);
            proof {
                lemma_trim_end_prefix(p@);
                lemma_last_index_bounds(trim_end(p@), '/');
            }
            let mut out = copy_chars(p, 0, tn - n.len());
            assert(out@ =~= trim_end(p@).take(trim_end(p@).len() - n@.len()));
            let s = stem_exec(n.as_slice());
            push_chars(&mut out, s.as_slice());
            out.push('.');
            push_str(&mut out, ext);
            out
        },
    }
}

/// The parent of `p`, if it has one.
pub fn parent_exec(p: &[char]) -> (r: Option<Vec<char>>)
    ensures
        match r {
            Some(v) => parent(p@) == Some(v@),
            None => parent(p@) is None,
        },
{
    let n = trim_end_len(p);
    let t = copy_chars(p, 0, n);
    assert(t@ =~= trim_end(p@));
    if n == 0 || (n == 1 && t[0] == '/') {
        return None;
    }
    let st = last_start_exec(t.as_slice());
    let head = copy_chars(t.as_slice(), 0, st);
    assert(head@ =~= t@.take(st as int));
    let m = trim_end_len(head.as_slice());
    Some(copy_chars(head.as_slice(), 0, m))
}

/// `base` joined with the relative `x`.
pub fn join_exec(base: &[char], x: &[char]) -> (r: Vec<char>)
    ensures
        r@ == join(base@, x@),
{
    let mut out = copy_chars(base, 0, base.len());
    assert(out@ =~= base@);
    if base.len() != 0 && base[base.len() - 1] != '/' {
        out.push('/');
    }
    push_chars(&mut out, x);
    out
}

/// The `/`-separated pieces of `p`, empty ones included.
pub open spec fn split_segs(p: Seq<char>) -> Seq<Seq<char>> {
    split_on(p, '/')
}

/// A path component: tag 0 is the root, 1 the current directory (`.`, only
/// at the start of a relative path), 2 the parent directory (`..`), 3 a
/// name (with its text).
pub type Comp = (int, Seq<char>);

/// The component one piece gives (empty pieces and inner `.` give none).
pub open spec fn seg_comp(s: Seq<char>, first: bool) -> Seq<Comp> {
    if s.len() == 0 {
        Seq::<Comp>::empty()
    } else if is_dot(s) {
        if first {
            seq![(1int, Seq::<char>::empty())]
        } else {
            Seq::<Comp>::empty()
        }
    } else if is_dotdot(s) {
        seq![(2int, Seq::<char>::empty())]
    } else {
        seq![(3int, s)]
    }
}

/// The components of a run of pieces; a leading `.` counts when `allow_cur`.
pub open spec fn seg_comps(segs: Seq<Seq<char>>, allow_cur: bool) -> Seq<Comp>
    decreases segs.len(),
{
    if segs.len() == 0 {
        Seq::<Comp>::empty()
    } else {
        seg_comps(segs.drop_last(), allow_cur) + seg_comp(segs.last(), allow_cur && segs.len() == 1)
    }
}

/// `Path::components` on Unix.
pub open spec fn components(p: Seq<char>) -> Seq<Comp> {
    if p.len() > 0 && p[0] == '/' {
        seq![(0int, Seq::<char>::empty())] + seg_comps(split_segs(p), false)
    } else {
        seg_comps(split_segs(p), true)
    }
}

/// The text of a non-root component.
pub open spec fn comp_text(c: Comp) -> Seq<char> {
    if c.0 == 1 {
        seq!['.']
    } else if c.0 == 2 {
        seq!['.', '.']
    } else {
        c.1
    }
}

/// `PathBuf::push` of one component.
pub open spec fn push_comp(acc: Seq<char>, c: Comp) -> Seq<char> {
    if c.0 == 0 {
        seq!['/']
    } else if acc.len() == 0 {
        comp_text(c)
    } else if acc.last() == '/' {
        acc + comp_text(c)
    } else {
        acc + seq!['/'] + comp_text(c)
    }
}

/// The path collected from components.
pub open spec fn collect(cs: Seq<Comp>) -> Seq<char>
    decreases cs.len(),
{
    if cs.len() == 0 {
        Seq::<char>::empty()
    } else {
        push_comp(collect(cs.drop_last()), cs.last())
    }
}

/// Length of the longest common prefix.
pub open spec fn common_prefix_len(a: Seq<Comp>, b: Seq<Comp>) -> int
    decreases a.len(),
{
    if a.len() == 0 || b.len() == 0 || a[0] != b[0] {
        0
    } else {
        1 + common_prefix_len(a.drop_first(), b.drop_first())
    }
}

/// The deepest common ancestor of two paths, component-wise.
pub open spec fn common_ancestor(a: Seq<char>, b: Seq<char>) -> Seq<char> {
    let ca = components(a);
    collect(ca.take(common_prefix_len(ca, components(b))))
}

/// The common ancestor of all paths, folded from the first.
pub open spec fn common_ancestor_all(paths: Seq<Seq<char>>) -> Seq<char>
    decreases paths.len(),
{
    if paths.len() == 0 {
        Seq::<char>::empty()
    } else if paths.len() == 1 {
        paths[0]
    } else {
        common_ancestor(common_ancestor_all(paths.drop_last()), paths.last())
    }
}

/// A path component.
pub enum PathComp {
    Root,
    Cur,
    Parent,
    Normal(Vec<char>),
}

/// The spec value of a component.
pub open spec fn comp_view(c: PathComp) -> Comp {
    match c {
        PathComp::Root => (0int, Seq::<char>::empty()),
        PathComp::Cur => (1int, Seq::<char>::empty()),
        PathComp::Parent => (2int, Seq::<char>::empty()),
        PathComp::Normal(v) => (3int, v@),
    }
}

/// The spec values of components.
pub open spec fn comps_view(cs: Seq<PathComp>) -> Seq<Comp> {
    cs.map_values(|c: PathComp| comp_view(c))
}

/// The pieces of `p` between separators.
pub fn split_segs_exec(p: &[char]) -> (segs: Vec<Vec<char>>)
    ensures
        segs@.map_values(|v: Vec<char>| v@) == split_segs(p@),
{
    split_on_exec(p, '/')
}

fn seg_comp_exec(s: &Vec<char>, first: bool, out: &mut Vec<PathComp>)
    ensures
        comps_view(final(out)@) == comps_view(old(out)@) + seg_comp(s@, first),
{
    let ghost before = comps_view(out@);
    if s.len() == 0 {
        assert(comps_view(out@) =~= before + seg_comp(s@, first));
    } else if s.len() == 1 && s[0] == '.' {
        if first {
            out.push(PathComp::Cur);
        }
        assert(comps_view(out@) =~= before + seg_comp(s@, first));
    } else if s.len() == 2 && s[0] == '.' && s[1] == '.' {
        out.push(PathComp::Parent);
        assert(comps_view(out@) =~= before + seg_comp(s@, first));
    } else {
        out.push(PathComp::Normal(copy_chars(s.as_slice(), 0, s.len())));
        assert(s@.subrange(0, s@.len() as int) =~= s@);
        assert(comps_view(out@) =~= before + seg_comp(s@, first));
    }
}

/// The components of `p`.
pub fn components_exec(p: &[char]) -> (cs: Vec<PathComp>)
    ensures
        comps_view(cs@) == components(p@),
{
    let segs = split_segs_exec(p);
    let ghost sv = segs@.map_values(|v: Vec<char>| v@);
    let mut out: Vec<PathComp> = Vec::new();
    let has_root = p.len() > 0 && p[0] == '/';
    if has_root {
        out.push(PathComp::Root);
    }
    let ghost base = comps_view(out@);
    let allow_cur = !has_root;
    let mut k: usize = 0;
    assert(sv.take(0) =~= Seq::<Seq<char>>::empty());
    assert(comps_view(out@) =~= base + seg_comps(sv.take(0), allow_cur));
    while k < segs.len()
        invariant
            k <= segs@.len(),
            sv == segs@.map_values(|v: Vec<char>| v@),
            sv.len() == segs@.len(),
            comps_view(out@) == base + seg_comps(sv.take(k as int), allow_cur),
        decreases segs.len() - k,
    {
        let ghost prev = comps_view(out@);
        seg_comp_exec(&segs[k], allow_cur && k == 0, &mut out);
        proof {
            let t = sv.take(k + 1);
            assert(t.drop_last() =~= sv.take(k as int));
            assert(t.last() == segs@[k as int]@);
            assert(comps_view(out@) =~= base + seg_comps(sv.take(k + 1), allow_cur));
        }
        k = k + 1;
    }
    assert(sv.take(k as int) =~= sv);
    assert(comps_view(out@) =~= components(p@));
    out
}

fn comp_eq(a: &PathComp, b: &PathComp) -> (r: bool)
    ensures
        r == (comp_view(*a) == comp_view(*b)),
{
    match (a, b) {
        (PathComp::Root, PathComp::Root) => true,
        (PathComp::Cur, PathComp::Cur) => true,
        (PathComp::Parent, PathComp::Parent) => true,
        (PathComp::Normal(x), PathComp::Normal(y)) => {
            let r = chars_eq(x.as_slice(), y.as_slice());
            r
        },
        _ => false,
    }
}

fn chars_eq(a: &[char], b: &[char]) -> (r: bool)
    ensures
        r == (a@ == b@),
{
    if a.len() != b.len() {
        return false;
    }
    let mut i: usize = 0;
    while i < a.len()
        invariant
            i <= a@.len(),
            a@.len() == b@.len(),
            a@.take(i as int) == b@.take(i as int),
        decreases a.len() - i,
    {
        if a[i] != b[i] {
            return false;
        }
        i = i + 1;
        assert(a@.take(i as int) =~= a@.take(i - 1).push(a@[i - 1]));
        assert(b@.take(i as int) =~= b@.take(i - 1).push(b@[i - 1]));
    }
    assert(a@.take(i as int) =~= a@);
    assert(b@.take(i as int) =~= b@);
    true
}

proof fn lemma_common_prefix_len(a: Seq<Comp>, b: Seq<Comp>, i: int)
    requires
        0 <= i <= a.len(),
        i <= b.len(),
        a.take(i) == b.take(i),
        i == a.len() || i == b.len() || a[i] != b[i],
    ensures
        common_prefix_len(a, b) == i,
    decreases i,
{
    if i > 0 {
        assert(a[0] == a.take(i)[0]);
        assert(b[0] == b.take(i)[0]);
        assert(a.drop_first().take(i - 1) =~= a.take(i).drop_first());
        assert(b.drop_first().take(i - 1) =~= b.take(i).drop_first());
        if i < a.len() && i < b.len() {
            assert(a.drop_first()[i - 1] == a[i]);
            assert(b.drop_first()[i - 1] == b[i]);
        }
        lemma_common_prefix_len(a.drop_first(), b.drop_first(), i - 1);
    }
}

/// The longest common prefix: it starts both sequences, and no longer one
/// does.
proof fn lemma_common_prefix_facts(a: Seq<Comp>, b: Seq<Comp>)
    ensures
        0 <= common_prefix_len(a, b) <= a.len(),
        common_prefix_len(a, b) <= b.len(),
        a.take(common_prefix_len(a, b)) == b.take(common_prefix_len(a, b)),
        common_prefix_len(a, b) == a.len() || common_prefix_len(a, b) == b.len() || a[common_prefix_len(
            a,
            b,
        )] != b[common_prefix_len(a, b)],
    decreases a.len(),
{
    if a.len() == 0 || b.len() == 0 || a[0] != b[0] {
        assert(a.take(0) =~= b.take(0));
    } else {
        let a1 = a.drop_first();
        let b1 = b.drop_first();
        lemma_common_prefix_facts(a1, b1);
        let m = common_prefix_len(a1, b1);
        assert(a.take(m + 1) =~= seq![a[0]] + a1.take(m));
        assert(b.take(m + 1) =~= seq![b[0]] + b1.take(m));
        if m + 1 < a.len() && m + 1 < b.len() {
            assert(a[m + 1] == a1[m]);
            assert(b[m + 1] == b1[m]);
        }
    }
}

/// Law: the deepest common ancestor of two paths is the path made of the
/// longest run of leading components they share: that run starts both
/// paths and no longer one does. So the order of the two paths does not
/// matter, and the ancestor of a path with itself is the whole path rebuilt
/// from its components.
pub proof fn law_common_ancestor_is_longest_shared_prefix(a: Seq<char>, b: Seq<char>)
    ensures
        ({
            let ca = components(a);
            let cb = components(b);
            let n = common_prefix_len(ca, cb);
            &&& 0 <= n <= ca.len()
            &&& n <= cb.len()
            &&& ca.take(n) == cb.take(n)
            &&& (n == ca.len() || n == cb.len() || ca[n] != cb[n])
            &&& common_ancestor(a, b) == collect(ca.take(n))
        }),
        common_ancestor(a, b) == common_ancestor(b, a),
        common_ancestor(a, a) == collect(components(a)),
{
    let ca = components(a);
    let cb = components(b);
    lemma_common_prefix_facts(ca, cb);
    let n = common_prefix_len(ca, cb);
    lemma_common_prefix_len(cb, ca, n);
    lemma_common_prefix_len(ca, ca, ca.len() as int);
    assert(ca.take(ca.len() as int) =~= ca);
}

fn push_comp_exec(acc: &mut Vec<char>, c: &PathComp)
    ensures
        final(acc)@ == push_comp(old(acc)@, comp_view(*c)),
{
    match c {
        PathComp::Root => {
            let mut v: Vec<char> = Vec::new();
            v.push('/');
            *acc = v;
            assert(acc@ =~= seq!['/']);
        },
        _ => {
            if acc.len() != 0 && acc[acc.len() - 1] != '/' {
                acc.push('/');
            }
            match c {
                PathComp::Cur => {
                    acc.push('.');
                },
                PathComp::Parent => {
                    acc.push('.');
                    acc.push('.');
                },
                PathComp::Normal(v) => {
                    push_chars(acc, v.as_slice());
                },
                PathComp::Root => {},
            }
            assert(acc@ =~= push_comp(old(acc)@, comp_view(*c)));
        },
    }
}

/// The deepest common ancestor of `a` and `b`.
pub fn common_ancestor_exec(a: &[char], b: &[char]) -> (r: Vec<char>)
    ensures
        r@ == common_ancestor(a@, b@),
{
    let ca = components_exec(a);
    let cb = components_exec(b);
    let ghost va = comps_view(ca@);
    let ghost vb = comps_view(cb@);
    let mut i: usize = 0;
    while i < ca.len() && i < cb.len() && comp_eq(&ca[i], &cb[i])
        invariant
            i <= ca@.len(),
            i <= cb@.len(),
            va == comps_view(ca@),
            vb == comps_view(cb@),
            va.take(i as int) == vb.take(i as int),
        decreases ca.len() - i,
    {
        proof {
            assert(va[i as int] == vb[i as int]);
            assert(va.take(i + 1) =~= va.take(i as int).push(va[i as int]));
            assert(vb.take(i + 1) =~= vb.take(i as int).push(vb[i as int]));
        }
        i = i + 1;
    }
    proof {
        lemma_common_prefix_len(va, vb, i as int);
    }
    let mut out: Vec<char> = Vec::new();
    let mut k: usize = 0;
    while k < i
        invariant
            k <= i <= ca@.len(),
            va == comps_view(ca@),
            out@ == collect(va.take(k as int)),
        decreases i - k,
    {
        push_comp_exec(&mut out, &ca[k]);
        proof {
            let t = va.take(k + 1);
            assert(t.drop_last() =~= va.take(k as int));
        }
        k = k + 1;
    }
    out
}

/// The common ancestor of all `paths`, folded from the first.
pub fn common_ancestor_all_exec(paths: &Vec<String>) -> (r: Vec<char>)
    ensures
        r@ == common_ancestor_all(strs(paths@)),
{
    let ghost ps = strs(paths@);
    if paths.len() == 0 {
        return Vec::new();
    }
    let mut common = chars_of(paths[0].as_str());
    let mut i: usize = 1;
    assert(ps.take(1).drop_last() =~= Seq::<Seq<char>>::empty());
    while i < paths.len()
        invariant
            1 <= i <= paths@.len(),
            ps == strs(paths@),
            common@ == common_ancestor_all(ps.take(i as int)),
        decreases paths.len() - i,
    {
        let pc = chars_of(paths[i].as_str());
        common = common_ancestor_exec(common.as_slice(), pc.as_slice());
        proof {
            let t = ps.take(i + 1);
            assert(t.drop_last() =~= ps.take(i as int));
        }
        i = i + 1;
    }
    assert(ps.take(i as int) =~= ps);
    common
}

/// Where the quick "compress" action writes: one path gives `<path>.zip`
/// beside it; several give `<common dir>.zip` beside their deepest common
/// directory, or `./Archive.zip` when that is the root or there is none.
pub open spec fn compress_dest_spec(paths: Seq<Seq<char>>) -> Seq<char> {
    if paths.len() == 1 {
        with_extension(paths[0], "zip"@)
    } else {
        let c = common_ancestor_all(paths);
        match parent(c) {
            None => "./Archive.zip"@,
            Some(par) => join(
                par,
                match file_name(c) {
                    Some(n) => n,
                    None => "Archive"@,
                } + ".zip"@,
            ),
        }
    }
}

/// Destination of the quick "compress" action for `paths`.
pub fn compress_dest(paths: &Vec<String>) -> (r: String)
    ensures
        r@ == compress_dest_spec(strs(paths@)),
{
    let ghost ps = strs(paths@);
    if paths.len() == 1 {
        let pc = chars_of(paths[0].as_str());
        let d = with_extension_exec(pc.as_slice(), "zip");
        return string_from_chars(d.as_slice());
    }
    let common = common_ancestor_all_exec(paths);
    match parent_exec(common.as_slice()) {
        None => "./Archive.zip".to_owned(),
        Some(par) => {
            let mut name = match file_name_exec(common.as_slice()) {
                Some(n) => n,
                None => chars_of("Archive"),
            };
            push_str(&mut name, ".zip");
            let d = join_exec(par.as_slice(), name.as_slice());
            string_from_chars(d.as_slice())
        },
    }
}

/// Where the quick "extract" action writes: a directory beside the archive,
/// named after its stem (`extracted` when it has no file name).
pub open spec fn extract_dest_spec(p: Seq<char>) -> Seq<char> {
    join(
        match parent(p) {
            Some(par) => par,
            None => "."@,
        },
        match file_name(p) {
            Some(n) => stem(n),
            None => "extracted"@,
        },
    )
}

/// Destination of the quick "extract" action for `archive_path`.
pub fn extract_dest(archive_path: &str) -> (r: String)
    ensures
        r@ == extract_dest_spec(archive_path@),
{
    let pc = chars_of(archive_path);
    let stem = match file_name_exec(pc.as_slice()) {
        Some(n) => stem_exec(n.as_slice()),
        None => chars_of("extracted"),
    };
    let par = match parent_exec(pc.as_slice()) {
        Some(v) => v,
        None => chars_of("."),
    };
    let d = join_exec(par.as_slice(), stem.as_slice());
    string_from_chars(d.as_slice())
}

/// A piece kept by sanitising: not empty, `.` or `..`.
pub open spec fn keep_seg(s: Seq<char>) -> bool {
    !(s.len() == 0 || is_dot(s) || is_dotdot(s))
}

/// The kept pieces, in order.
pub open spec fn kept_segs(segs: Seq<Seq<char>>) -> Seq<Seq<char>>
    decreases segs.len(),
{
    if segs.len() == 0 {
        Seq::<Seq<char>>::empty()
    } else if keep_seg(segs.last()) {
        kept_segs(segs.drop_last()).push(segs.last())
    } else {
        kept_segs(segs.drop_last())
    }
}

proof fn lemma_kept_len(segs: Seq<Seq<char>>)
    ensures
        kept_segs(segs).len() <= segs.len(),
    decreases segs.len(),
{
    if segs.len() > 0 {
        lemma_kept_len(segs.drop_last());
    }
}

/// Pieces joined by `/`.
pub open spec fn join_segs(ss: Seq<Seq<char>>) -> Seq<char>
    decreases ss.len(),
{
    if ss.len() == 0 {
        Seq::<char>::empty()
    } else if ss.len() == 1 {
        ss[0]
    } else {
        join_segs(ss.drop_last()) + seq!['/'] + ss.last()
    }
}

/// An entry name made safe to extract under a directory: empty, `.` and
/// `..` pieces are dropped, so it can neither be absolute nor climb out.
pub open spec fn sanitize_spec(name: Seq<char>) -> Seq<char> {
    join_segs(kept_segs(split_segs(name)))
}

proof fn lemma_kept_segs_members(segs: Seq<Seq<char>>)
    ensures
        forall|k: int|
            0 <= k < kept_segs(segs).len() ==> keep_seg(#[trigger] kept_segs(segs)[k]) && segs.contains(
                kept_segs(segs)[k],
            ),
    decreases segs.len(),
{
    if segs.len() > 0 {
        lemma_kept_segs_members(segs.drop_last());
        let prev = kept_segs(segs.drop_last());
        assert forall|k: int| 0 <= k < kept_segs(segs).len() implies keep_seg(
            #[trigger] kept_segs(segs)[k],
        ) && segs.contains(kept_segs(segs)[k]) by {
            if k < prev.len() {
                assert(kept_segs(segs)[k] == prev[k]);
                let j = choose|j: int| 0 <= j < segs.drop_last().len() && segs.drop_last()[j] == prev[k];
                assert(segs[j] == prev[k]);
            } else {
                assert(segs[segs.len() - 1] == segs.last());
            }
        }
    }
}

proof fn lemma_join_len(ss: Seq<Seq<char>>)
    requires
        ss.len() >= 1,
    ensures
        join_segs(ss).len() >= ss[0].len(),
        join_segs(ss).take(ss[0].len() as int) == ss[0],
    decreases ss.len(),
{
    if ss.len() > 1 {
        lemma_join_len(ss.drop_last());
        let j = join_segs(ss.drop_last());
        assert(ss.drop_last()[0] == ss[0]);
        assert((j + seq!['/'] + ss.last()).take(ss[0].len() as int) =~= j.take(ss[0].len() as int));
    }
}

/// Splitting joined pieces gives the pieces back, when none holds a `/`.
proof fn lemma_split_join(ss: Seq<Seq<char>>)
    requires
        ss.len() >= 1,
        forall|k: int| 0 <= k < ss.len() ==> !(#[trigger] ss[k]).contains('/'),
    ensures
        split_segs(join_segs(ss)) == ss,
    decreases ss.len(),
{
    let last = ss.last();
    assert(ss[ss.len() - 1] == last);
    lemma_last_index_bounds(last, '/');
    if last_index_of(last, '/') >= 0 {
        assert(last.contains('/')) by {
            assert(last[last_index_of(last, '/')] == '/');
        }
    }
    if ss.len() == 1 {
        assert(split_segs(ss[0]) =~= seq![ss[0]]);
        assert(ss =~= seq![ss[0]]);
    } else {
        let front = ss.drop_last();
        assert forall|k: int| 0 <= k < front.len() implies !(#[trigger] front[k]).contains('/') by {
            assert(front[k] == ss[k]);
        }
        lemma_split_join(front);
        let a = join_segs(front) + seq!['/'];
        let j = a + last;
        assert(join_segs(ss) == j);
        lemma_last_index_concat(a, last, '/');
        assert(last_index_of(a, '/') == a.len() - 1) by {
            assert(a.last() == '/');
        }
        assert(j.take(a.len() - 1) =~= join_segs(front));
        assert(j.skip(a.len() as int) =~= last);
        assert(split_segs(j) =~= split_segs(join_segs(front)) + seq![last]);
        assert(ss =~= front + seq![last]);
    }
}


/// The kept pieces are the pieces that pass `pred`, when `pred` holds of
/// exactly the pieces kept.
proof fn lemma_kept_is_filter(segs: Seq<Seq<char>>, pred: spec_fn(Seq<char>) -> bool)
    requires
        forall|s: Seq<char>| #[trigger] pred(s) == keep_seg(s),
    ensures
        kept_segs(segs) == segs.filter(pred),
    decreases segs.len(),
{
    reveal(Seq::filter);
    if segs.len() > 0 {
        lemma_kept_is_filter(segs.drop_last(), pred);
    }
}

/// Splitting always gives at least one piece.
proof fn lemma_split_nonempty(p: Seq<char>)
    ensures
        split_segs(p).len() >= 1,
    decreases p.len(),
{
    lemma_last_index_bounds(p, '/');
    let i = last_index_of(p, '/');
    if 0 <= i < p.len() {
        lemma_split_nonempty(p.take(i));
    }
}

/// Joining the pieces of a path with `/` gives the path back.
proof fn lemma_join_split(p: Seq<char>)
    ensures
        join_segs(split_segs(p)) == p,
    decreases p.len(),
{
    lemma_last_index_bounds(p, '/');
    let i = last_index_of(p, '/');
    if 0 <= i < p.len() {
        let front = split_segs(p.take(i));
        lemma_split_nonempty(p.take(i));
        lemma_join_split(p.take(i));
        let ss = front + seq![p.skip(i + 1)];
        assert(split_segs(p) == ss);
        assert(ss.drop_last() =~= front);
        assert(ss.last() == p.skip(i + 1));
        assert(p[i] == '/');
        assert(p =~= p.take(i) + seq!['/'] + p.skip(i + 1));
    } else {
        assert(split_segs(p) == seq![p]);
    }
}

/// Law: sanitising keeps every real name of an entry, and only those: the
/// `/`-separated pieces of the result are exactly the pieces of the name
/// that are not empty, `.` or `..`, in the same order, and the result is
/// empty only when there is no such piece. So a name made only of real
/// pieces (such as `proj/.env` or `.gitignore`) is kept unchanged.
pub proof fn law_sanitize_keeps_real_names(name: Seq<char>)
    ensures
        ({
            let pieces = split_segs(name).filter(
                |s: Seq<char>| s.len() > 0 && s != seq!['.'] && s != seq!['.', '.'],
            );
            &&& (sanitize_spec(name).len() == 0 <==> pieces.len() == 0)
            &&& pieces.len() > 0 ==> split_segs(sanitize_spec(name)) == pieces
            &&& pieces == split_segs(name) ==> sanitize_spec(name) == name
        }),
{
    let pred = |s: Seq<char>| s.len() > 0 && s != seq!['.'] && s != seq!['.', '.'];
    assert forall|s: Seq<char>| #[trigger] pred(s) == keep_seg(s) by {
        if s.len() == 1 && s[0] == '.' {
            assert(s =~= seq!['.']);
        }
        if s.len() == 2 && s[0] == '.' && s[1] == '.' {
            assert(s =~= seq!['.', '.']);
        }
    }
    let segs = split_segs(name);
    lemma_kept_is_filter(segs, pred);
    let kept = kept_segs(segs);
    lemma_kept_segs_members(segs);
    lemma_split_pieces_lack_sep(name, '/');
    if kept.len() > 0 {
        assert forall|k: int| 0 <= k < kept.len() implies !(#[trigger] kept[k]).contains('/') by {
            assert(keep_seg(kept[k]) && segs.contains(kept[k]));
            let j = choose|j: int| 0 <= j < segs.len() && segs[j] == kept[k];
            assert(!segs[j].contains('/'));
        }
        lemma_split_join(kept);
        lemma_join_len(kept);
        assert(kept[0].len() > 0);
    }
    if kept == segs {
        lemma_join_split(name);
    }
}

/// Law: a sanitised entry name stays inside the destination it is joined
/// to: unless it is empty, it is relative (it does not start with `/`) and
/// each of its `/`-separated pieces is a real name, never empty, `.` or `..`.
pub proof fn law_sanitized_names_stay_inside(name: Seq<char>)
    ensures
        sanitize_spec(name).len() > 0 ==> sanitize_spec(name)[0] != '/',
        sanitize_spec(name).len() > 0 ==> forall|k: int|
            0 <= k < split_segs(sanitize_spec(name)).len() ==> keep_seg(
                #[trigger] split_segs(sanitize_spec(name))[k],
            ),
{
    let segs = split_segs(name);
    let kept = kept_segs(segs);
    lemma_kept_segs_members(segs);
    lemma_split_pieces_lack_sep(name, '/');
    if sanitize_spec(name).len() > 0 {
        assert(kept.len() >= 1);
        assert forall|k: int| 0 <= k < kept.len() implies !(#[trigger] kept[k]).contains('/') by {
            assert(keep_seg(kept[k]) && segs.contains(kept[k]));
            let j = choose|j: int| 0 <= j < segs.len() && segs[j] == kept[k];
            assert(!segs[j].contains('/'));
        }
        lemma_split_join(kept);
        lemma_join_len(kept);
        assert(keep_seg(kept[0]));
        assert(kept[0].len() > 0);
        assert(sanitize_spec(name)[0] == kept[0][0]) by {
            assert(join_segs(kept).take(kept[0].len() as int)[0] == join_segs(kept)[0]);
        }
        if kept[0][0] == '/' {
            assert(kept[0].contains('/'));
        }
    }
}

/// Sanitises an entry name against path traversal.
pub fn sanitize(name: &str) -> (r: String)
    ensures
        r@ == sanitize_spec(name@),
{
    let nc = chars_of(name);
    let segs = split_segs_exec(nc.as_slice());
    let ghost sv = segs@.map_values(|v: Vec<char>| v@);
    let mut out: Vec<char> = Vec::new();
    let mut count: usize = 0;
    let mut k: usize = 0;
    assert(sv.take(0) =~= Seq::<Seq<char>>::empty());
    while k < segs.len()
        invariant
            k <= segs@.len(),
            sv == segs@.map_values(|v: Vec<char>| v@),
            sv.len() == segs@.len(),
            count == kept_segs(sv.take(k as int)).len(),
            count <= k,
            out@ == join_segs(kept_segs(sv.take(k as int))),
        decreases segs.len() - k,
    {
        proof {
            lemma_kept_len(sv.take(k as int));
        }
        let seg = &segs[k];
        let keep = !(seg.len() == 0 || (seg.len() == 1 && seg[0] == '.') || (seg.len() == 2
            && seg[0] == '.' && seg[1] == '.'));
        proof {
            let t = sv.take(k + 1);
            assert(t.drop_last() =~= sv.take(k as int));
            assert(t.last() == seg@);
        }
        if keep {
            if count > 0 {
                out.push('/');
            }
            push_chars(&mut out, seg.as_slice());
            count = count + 1;
            proof {
                let ks = kept_segs(sv.take(k + 1));
                assert(ks.drop_last() =~= kept_segs(sv.take(k as int)));
                if ks.len() == 1 {
                    assert(out@ =~= ks[0]);
                } else {
                    assert(out@ =~= join_segs(ks.drop_last()) + seq!['/'] + ks.last());
                }
            }
        }
        k = k + 1;
    }
    assert(sv.take(k as int) =~= sv);
    string_from_chars(out.as_slice())
}

/// `d` without trailing `/`.
pub open spec fn trim_slashes(d: Seq<char>) -> Seq<char>
    decreases d.len(),
{
    if d.len() > 0 && d.last() == '/' {
        trim_slashes(d.drop_last())
    } else {
        d
    }
}

/// The `__MACOSX` entry that carries the metadata of `rel`.
pub open spec fn apple_double_entry_name_spec(rel: Seq<char>) -> Seq<char> {
    let idx = last_index_of(rel, '/') + 1;
    "__MACOSX/"@ + trim_slashes(rel.take(idx)) + "._"@ + rel.skip(idx)
}

/// Name of the `__MACOSX` AppleDouble entry written for the entry `rel`.
pub fn apple_double_entry_name(rel: &str) -> (r: String)
    ensures
        r@ == apple_double_entry_name_spec(rel@),
{
    let rc = chars_of(rel);
    proof {
        lemma_last_index_bounds(rel@, '/');
    }
    let n = rc.len();
    let idx = match rfind_char(rc.as_slice(), '/') {
        Some(i) => i + 1,
        None => 0,
    };
    let mut d = idx;
    while d > 0 && rc[d - 1] == '/'
        invariant
            d <= idx <= rc@.len(),
            trim_slashes(rc@.take(idx as int)) == trim_slashes(rc@.take(d as int)),
        decreases d,
    {
        assert(rc@.take(d as int).drop_last() =~= rc@.take(d - 1));
        d = d - 1;
    }
    let mut out: Vec<char> = Vec::new();
    push_str(&mut out, "__MACOSX/");
    let dir = copy_chars(rc.as_slice(), 0, d);
    assert(dir@ =~= rc@.take(d as int));
    assert(trim_slashes(dir@) == dir@);
    push_chars(&mut out, dir.as_slice());
    push_str(&mut out, "._");
    let name = copy_chars(rc.as_slice(), idx, n);
    assert(name@ =~= rc@.skip(idx as int));
    push_chars(&mut out, name.as_slice());
    string_from_chars(out.as_slice())
}

/// The entry whose metadata a `__MACOSX/<dir>/._<name>` entry carries.
pub open spec fn strip_apple_double_spec(name: Seq<char>) -> Option<Seq<char>> {
    if !starts_with(name, "__MACOSX/"@) {
        None
    } else {
        let rest = name.skip(9);
        let i = last_index_of(rest, '/');
        if i >= 0 {
            let last = rest.skip(i);
            if !starts_with(last, "/._"@) {
                None
            } else {
                Some(rest.take(i) + seq!['/'] + last.skip(3))
            }
        } else if !starts_with(rest, "._"@) {
            None
        } else {
            Some(rest.skip(2))
        }
    }
}

/// The entry a `__MACOSX` AppleDouble entry belongs to, if it is one.
pub fn strip_apple_double(name: &str) -> (r: Option<String>)
    ensures
        match r {
            Some(s) => strip_apple_double_spec(name@) == Some(s@),
            None => strip_apple_double_spec(name@) is None,
        },
{
    let nc = chars_of(name);
    if !starts_with_str(nc.as_slice(), "__MACOSX/") {
        return None;
    }
    proof {
        reveal_strlit("__MACOSX/");
    }
    let rest = copy_chars(nc.as_slice(), 9, nc.len());
    assert(rest@ =~= name@.skip(9));
    proof {
        lemma_last_index_bounds(rest@, '/');
    }
    let n = rest.len();
    match rfind_char(rest.as_slice(), '/') {
        Some(i) => {
            let last = copy_chars(rest.as_slice(), i, n);
            assert(last@ =~= rest@.skip(i as int));
            if !starts_with_str(last.as_slice(), "/._") {
                return None;
            }
            proof {
                reveal_strlit("/._");
            }
            let mut out = copy_chars(rest.as_slice(), 0, i);
            out.push('/');
            let tail = copy_chars(last.as_slice(), 3, last.len());
            assert(tail@ =~= last@.skip(3));
            push_chars(&mut out, tail.as_slice());
            assert(out@ =~= rest@.take(i as int) + seq!['/'] + last@.skip(3));
            Some(string_from_chars(out.as_slice()))
        },
        None => {
            if !starts_with_str(rest.as_slice(), "._") {
                return None;
            }
            proof {
                reveal_strlit("._");
            }
            let tail = copy_chars(rest.as_slice(), 2, n);
            assert(tail@ =~= rest@.skip(2));
            Some(string_from_chars(tail.as_slice()))
        },
    }
}

/// Law: for an entry at the top of the archive (no `/` in its name), the
/// `__MACOSX` entry written for it leads back to it when extracting.
pub proof fn law_apple_double_name_roundtrip(rel: Seq<char>)
    requires
        !rel.contains('/'),
    ensures
        strip_apple_double_spec(apple_double_entry_name_spec(rel)) == Some(rel),
{
    reveal_strlit("__MACOSX/");
    reveal_strlit("._");
    reveal_strlit("/._");
    lemma_last_index_bounds(rel, '/');
    assert(last_index_of(rel, '/') == -1) by {
        if last_index_of(rel, '/') >= 0 {
            assert(rel[last_index_of(rel, '/')] == '/');
        }
    }
    assert(rel.take(0) =~= Seq::<char>::empty());
    assert(rel.skip(0) =~= rel);
    let e = apple_double_entry_name_spec(rel);
    assert(e =~= "__MACOSX/"@ + "._"@ + rel);
    let rest = e.skip(9);
    assert(rest =~= "._"@ + rel);
    lemma_last_index_bounds(rest, '/');
    assert(last_index_of(rest, '/') == -1) by {
        let i = last_index_of(rest, '/');
        if i >= 0 {
            assert(rest[i] == '/');
            if i >= 2 {
                assert(rel[i - 2] == '/');
            }
        }
    }
    assert(e.subrange(0, 9) =~= "__MACOSX/"@);
    assert(rest.subrange(0, 2) =~= "._"@);
    assert(rest.skip(2) =~= rel);
}

/// The name of the file a single-stream archive decompresses to: its file
/// name without a `.gz`, `.bz2`, `.xz` or `.zst` suffix (any case), like
/// gunzip does; `file` when the path has no file name.
pub open spec fn derived_name_spec(archive: Seq<char>) -> Seq<char> {
    let s = match file_name(archive) {
        Some(n) => n,
        None => "file"@,
    };
    let l = crate::text::lower(s);
    if crate::text::ends_with(l, ".gz"@) {
        s.take(s.len() - 3)
    } else if crate::text::ends_with(l, ".bz2"@) {
        s.take(s.len() - 4)
    } else if crate::text::ends_with(l, ".xz"@) {
        s.take(s.len() - 3)
    } else if crate::text::ends_with(l, ".zst"@) {
        s.take(s.len() - 4)
    } else {
        s
    }
}

/// Name of the decompressed file of a single-stream archive.
pub fn derived_name(archive: &str) -> (r: String)
    ensures
        r@ == derived_name_spec(archive@),
{
    let ac = chars_of(archive);
    let s = match file_name_exec(ac.as_slice()) {
        Some(n) => n,
        None => chars_of("file"),
    };
    let lc = crate::text::lowercase(s.as_slice());
    let l = lc.as_slice();
    proof {
        reveal_strlit(".gz");
        reveal_strlit(".bz2");
        reveal_strlit(".xz");
        reveal_strlit(".zst");
    }
    let cut: usize = if crate::text::ends_with_str(l, ".gz") {
        3
    } else if crate::text::ends_with_str(l, ".bz2") {
        4
    } else if crate::text::ends_with_str(l, ".xz") {
        3
    } else if crate::text::ends_with_str(l, ".zst") {
        4
    } else {
        0
    };
    let out = copy_chars(s.as_slice(), 0, s.len() - cut);
    assert(cut == 0 ==> out@ =~= s@);
    string_from_chars(out.as_slice())
}


/// Law: decompressing a single stream writes its file name with exactly
/// one compression suffix (`.gz`, `.bz2`, `.xz` or `.zst`, any case) taken
/// off the end, and the file name unchanged when it has none of them.
pub proof fn law_derived_name_drops_one_suffix(archive: Seq<char>)
    ensures
        ({
            let f = match file_name(archive) {
                Some(n) => n,
                None => "file"@,
            };
            let d = derived_name_spec(archive);
            let l = crate::text::lower(f);
            &&& crate::text::ends_with(l, ".gz"@) ==> d + f.skip(f.len() - 3) == f && d.len() + 3 == f.len()
            &&& crate::text::ends_with(l, ".bz2"@) ==> d + f.skip(f.len() - 4) == f && d.len() + 4 == f.len()
            &&& crate::text::ends_with(l, ".xz"@) ==> d + f.skip(f.len() - 3) == f && d.len() + 3 == f.len()
            &&& crate::text::ends_with(l, ".zst"@) ==> d + f.skip(f.len() - 4) == f && d.len() + 4 == f.len()
            &&& !crate::text::ends_with(l, ".gz"@) && !crate::text::ends_with(l, ".bz2"@)
                && !crate::text::ends_with(l, ".xz"@) && !crate::text::ends_with(l, ".zst"@) ==> d == f
        }),
{
    reveal_strlit(".gz");
    reveal_strlit(".bz2");
    reveal_strlit(".xz");
    reveal_strlit(".zst");
    let f = match file_name(archive) {
        Some(n) => n,
        None => "file"@,
    };
    let l = crate::text::lower(f);
    assert(l.len() == f.len());
    if crate::text::ends_with(l, ".bz2"@) {
        crate::text::lemma_suffix_excludes(l, ".bz2"@, ".gz"@, 0);
    }
    if crate::text::ends_with(l, ".xz"@) {
        crate::text::lemma_suffix_excludes(l, ".xz"@, ".gz"@, 1);
        crate::text::lemma_suffix_excludes(l, ".xz"@, ".bz2"@, 0);
    }
    if crate::text::ends_with(l, ".zst"@) {
        crate::text::lemma_suffix_excludes(l, ".zst"@, ".gz"@, 0);
        crate::text::lemma_suffix_excludes(l, ".zst"@, ".bz2"@, 0);
        crate::text::lemma_suffix_excludes(l, ".zst"@, ".xz"@, 0);
    }
    if f.len() >= 3 {
        assert(f.take(f.len() - 3) + f.skip(f.len() - 3) =~= f);
    }
    if f.len() >= 4 {
        assert(f.take(f.len() - 4) + f.skip(f.len() - 4) =~= f);
    }
}

} // verus!
