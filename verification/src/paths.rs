//! Unix path semantics on text: components, file names, stems and extensions,
//! as `std::path::Path` defines them.
use vstd::prelude::*;
use crate::text;
use crate::text::{find_char, lemma_find_char};

verus! {

/// One component of a path.
pub enum Comp {
    RootDir,
    CurDir,
    ParentDir,
    Normal(Vec<char>),
}

/// Spec counterpart of [`Comp`].
pub enum SpecComp {
    RootDir,
    CurDir,
    ParentDir,
    Normal(Seq<char>),
}

impl View for Comp {
    type V = SpecComp;

    open spec fn view(&self) -> SpecComp {
        match self {
            Comp::RootDir => SpecComp::RootDir,
            Comp::CurDir => SpecComp::CurDir,
            Comp::ParentDir => SpecComp::ParentDir,
            Comp::Normal(n) => SpecComp::Normal(n@),
        }
    }
}

pub open spec fn comps_view(v: Seq<Comp>) -> Seq<SpecComp> {
    v.map_values(|c: Comp| c.view())
}

/// What a single `/`-free segment contributes: nothing for `""` and `"."`.
pub open spec fn segment_comps(seg: Seq<char>) -> Seq<SpecComp> {
    if seg.len() == 0 || seg == seq!['.'] {
        Seq::empty()
    } else if seg == seq!['.', '.'] {
        seq![SpecComp::ParentDir]
    } else {
        seq![SpecComp::Normal(seg)]
    }
}

/// Components of the segments of `p`, read left to right.
pub open spec fn body_comps(p: Seq<char>) -> Seq<SpecComp>
    decreases p.len(),
{
    if p.len() == 0 {
        Seq::empty()
    } else {
        let k = find_char(p, '/');
        if k < p.len() {
            proof {
                lemma_find_char(p, '/');
            }
            segment_comps(p.take(k)) + body_comps(p.skip(k + 1))
        } else {
            segment_comps(p)
        }
    }
}

pub open spec fn has_root(p: Seq<char>) -> bool {
    p.len() > 0 && p[0] == '/'
}

/// A relative path that starts with the current directory: `"."` or `"./..."`.
pub open spec fn starts_at_cur_dir(p: Seq<char>) -> bool {
    !has_root(p) && p.len() > 0 && p[0] == '.' && (p.len() == 1 || p[1] == '/')
}

/// `Path::components`: a root, a leading `.` of a relative path, then the segments
/// without empty and `.` ones.
pub open spec fn components(p: Seq<char>) -> Seq<SpecComp> {
    if has_root(p) {
        seq![SpecComp::RootDir] + body_comps(p)
    } else if starts_at_cur_dir(p) {
        seq![SpecComp::CurDir] + body_comps(p)
    } else {
        body_comps(p)
    }
}

fn segment_comps_exec(seg: Vec<char>) -> (r: Vec<Comp>)
    ensures
        comps_view(r@) == segment_comps(seg@),
{
    let mut r: Vec<Comp> = Vec::new();
    let dot = seg.len() == 1 && seg[0] == '.';
    let dotdot = seg.len() == 2 && seg[0] == '.' && seg[1] == '.';
    proof {
        assert(dot == (seg@ == seq!['.'])) by {
            if seg@ == seq!['.'] {
                assert(seg@[0] == '.');
            }
            if dot {
                assert(seg@ =~= seq!['.']);
            }
        }
        assert(dotdot == (seg@ == seq!['.', '.'])) by {
            if seg@ == seq!['.', '.'] {
                assert(seg@[0] == '.' && seg@[1] == '.');
            }
            if dotdot {
                assert(seg@ =~= seq!['.', '.']);
            }
        }
    }
    if seg.len() == 0 || dot {
        assert(comps_view(r@) =~= segment_comps(seg@));
        return r;
    }
    if dotdot {
        r.push(Comp::ParentDir);
        assert(comps_view(r@) =~= segment_comps(seg@));
        return r;
    }
    let ghost sv = seg@;
    r.push(Comp::Normal(seg));
    assert(comps_view(r@) =~= segment_comps(sv));
    r
}

fn append_comps(out: &mut Vec<Comp>, more: Vec<Comp>)
    ensures
        comps_view(final(out)@) == comps_view(old(out)@) + comps_view(more@),
{
    let mut more = more;
    let ghost a = out@;
    let ghost b = more@;
    out.append(&mut more);
    assert(comps_view(out@) =~= comps_view(a) + comps_view(b));
}

fn body_comps_exec(p: &[char]) -> (r: Vec<Comp>)
    ensures
        comps_view(r@) == body_comps(p@),
{
    let mut out: Vec<Comp> = Vec::new();
    let mut rest = text::copy_range(p, 0, p.len());
    assert(rest@ =~= p@);
    assert(comps_view(out@) =~= Seq::<SpecComp>::empty());
    while rest.len() > 0
        invariant
            comps_view(out@) + body_comps(rest@) == body_comps(p@),
        decreases rest@.len(),
    {
        let k = text::find_char_exec(rest.as_slice(), '/');
        let seg = text::copy_range(rest.as_slice(), 0, k);
        let part = segment_comps_exec(seg);
        let ghost old_out = comps_view(out@);
        append_comps(&mut out, part);
        if k < rest.len() {
            let next = text::copy_range(rest.as_slice(), k + 1, rest.len());
            proof {
                assert(comps_view(out@) + body_comps(next@) =~= old_out + body_comps(rest@));
            }
            rest = next;
        } else {
            proof {
                assert(rest@.take(k as int) =~= rest@);
                assert(body_comps(rest@) == segment_comps(rest@));
                assert(comps_view(out@) =~= old_out + body_comps(rest@));
            }
            let ghost old_rest = rest@;
            rest = Vec::new();
            proof {
                assert(body_comps(rest@) =~= Seq::<SpecComp>::empty());
                assert(comps_view(out@) + body_comps(rest@) =~= old_out + body_comps(old_rest));
            }
        }
    }
    proof {
        assert(body_comps(rest@) =~= Seq::<SpecComp>::empty());
        assert(comps_view(out@) + body_comps(rest@) =~= comps_view(out@));
    }
    out
}

/// `Path::components` of a path given as text.
pub fn components_exec(p: &[char]) -> (r: Vec<Comp>)
    ensures
        comps_view(r@) == components(p@),
{
    let body = body_comps_exec(p);
    let mut out: Vec<Comp> = Vec::new();
    if p.len() > 0 && p[0] == '/' {
        out.push(Comp::RootDir);
    } else if p.len() > 0 && p[0] == '.' && (p.len() == 1 || p[1] == '/') {
        out.push(Comp::CurDir);
    }
    let ghost first = comps_view(out@);
    append_comps(&mut out, body);
    proof {
        if has_root(p@) {
            assert(first =~= seq![SpecComp::RootDir]);
        } else if starts_at_cur_dir(p@) {
            assert(first =~= seq![SpecComp::CurDir]);
        } else {
            assert(first =~= Seq::<SpecComp>::empty());
            assert(comps_view(out@) =~= body_comps(p@));
        }
    }
    out
}

/// `Path::file_name`: the last component when it is a normal one.
pub open spec fn file_name(p: Seq<char>) -> Option<Seq<char>> {
    let c = components(p);
    if c.len() > 0 && c.last() is Normal {
        Some(c.last()->Normal_0)
    } else {
        None
    }
}

pub fn file_name_exec(p: &[char]) -> (r: Option<Vec<char>>)
    ensures
        match r {
            Some(v) => file_name(p@) == Some(v@),
            None => file_name(p@) is None,
        },
{
    let mut comps = components_exec(p);
    let ghost cv = comps_view(comps@);
    match comps.pop() {
        Some(Comp::Normal(n)) => {
            proof {
                assert(cv.last() == SpecComp::Normal(n@));
            }
            Some(n)
        },
        Some(c) => {
            proof {
                assert(cv.last() == c.view());
            }
            None
        },
        None => None,
    }
}

/// Index of the last `.` of `s`, or `-1`.
pub open spec fn last_dot(s: Seq<char>) -> int
    decreases s.len(),
{
    if s.len() == 0 {
        -1
    } else if s.last() == '.' {
        s.len() - 1
    } else {
        last_dot(s.drop_last())
    }
}

pub proof fn lemma_last_dot(s: Seq<char>)
    ensures
        -1 <= last_dot(s) < s.len(),
        last_dot(s) >= 0 ==> s[last_dot(s)] == '.',
        forall|j: int| last_dot(s) < j < s.len() ==> s[j] != '.',
    decreases s.len(),
{
    if s.len() > 0 && s.last() != '.' {
        lemma_last_dot(s.drop_last());
        assert forall|j: int| last_dot(s) < j < s.len() implies s[j] != '.' by {
            if j < s.len() - 1 {
                assert(s[j] == s.drop_last()[j]);
            }
        }
    }
}

fn last_dot_exec(s: &[char]) -> (r: Option<usize>)
    ensures
        match r {
            Some(d) => last_dot(s@) == d,
            None => last_dot(s@) == -1,
        },
{
    proof {
        lemma_last_dot(s@);
    }
    let mut k: usize = s.len();
    while k > 0
        invariant
            k <= s@.len(),
            forall|j: int| k <= j < s@.len() ==> s@[j] != '.',
            -1 <= last_dot(s@) < s@.len(),
            last_dot(s@) >= 0 ==> s@[last_dot(s@)] == '.',
            forall|j: int| last_dot(s@) < j < s@.len() ==> s@[j] != '.',
        decreases k,
    {
        if s[k - 1] == '.' {
            return Some(k - 1);
        }
        k = k - 1;
    }
    None
}

/// `Path::file_stem` of a file name: all of it when it has no `.` past its first
/// character, else everything before the last `.`.
pub open spec fn stem_of(name: Seq<char>) -> Seq<char> {
    if last_dot(name) <= 0 {
        name
    } else {
        name.take(last_dot(name))
    }
}

/// `Path::extension` of a file name: after the last `.`, unless that `.` is the first
/// character or there is none.
pub open spec fn extension_of(name: Seq<char>) -> Option<Seq<char>> {
    if last_dot(name) <= 0 {
        None
    } else {
        Some(name.skip(last_dot(name) + 1))
    }
}

pub open spec fn extension(p: Seq<char>) -> Option<Seq<char>> {
    match file_name(p) {
        Some(n) => extension_of(n),
        None => None,
    }
}

pub open spec fn file_stem(p: Seq<char>) -> Option<Seq<char>> {
    match file_name(p) {
        Some(n) => Some(stem_of(n)),
        None => None,
    }
}

pub fn stem_of_exec(name: &[char]) -> (r: Vec<char>)
    ensures
        r@ == stem_of(name@),
{
    proof {
        lemma_last_dot(name@);
    }
    match last_dot_exec(name) {
        Some(d) if d > 0 => text::copy_range(name, 0, d),
        _ => {
            proof {
                lemma_last_dot(name@);
            }
            text::copy_range(name, 0, name.len())
        },
    }
}

pub fn extension_of_exec(name: &[char]) -> (r: Option<Vec<char>>)
    ensures
        match r {
            Some(v) => extension_of(name@) == Some(v@),
            None => extension_of(name@) is None,
        },
{
    proof {
        lemma_last_dot(name@);
    }
    let n = name.len();
    match last_dot_exec(name) {
        Some(d) if d > 0 => {
            assert(d < n);
            Some(text::copy_range(name, d + 1, n))
        },
        _ => None,
    }
}

/// `Path::extension` of a path given as text.
pub fn extension_exec(p: &[char]) -> (r: Option<Vec<char>>)
    ensures
        match r {
            Some(v) => extension(p@) == Some(v@),
            None => extension(p@) is None,
        },
{
    match file_name_exec(p) {
        Some(n) => extension_of_exec(n.as_slice()),
        None => None,
    }
}

} // verus!

verus! {

/// `PathBuf::push`/`Path::join` of relative or absolute text: an absolute `b`
/// replaces `a`; otherwise a `/` goes between them unless `a` is empty or already
/// ends with one.
pub open spec fn path_join(a: Seq<char>, b: Seq<char>) -> Seq<char> {
    if has_root(b) {
        b
    } else if a.len() == 0 || a.last() == '/' {
        a + b
    } else {
        a + seq!['/'] + b
    }
}

pub fn path_join_exec(a: &[char], b: &[char]) -> (r: Vec<char>)
    ensures
        r@ == path_join(a@, b@),
{
    if b.len() > 0 && b[0] == '/' {
        return text::copy_range(b, 0, b.len());
    }
    let mut out = text::copy_range(a, 0, a.len());
    if !(a.len() == 0 || a[a.len() - 1] == '/') {
        out.push('/');
    }
    text::push_all(&mut out, b);
    proof {
        assert(a@.subrange(0, a@.len() as int) =~= a@);
        if !has_root(b@) && !(a@.len() == 0 || a@.last() == '/') {
            assert(out@ =~= a@ + seq!['/'] + b@);
        }
    }
    out
}

} // verus!
