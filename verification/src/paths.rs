//! Unix paths read as their components, the way `std::path::Path` reads
//! them (as text, or as the bytes the operating system holds): repeated `/` are ignored, `.` is dropped except at the start of a
//! relative path, and a trailing `/` is ignored.
use vstd::prelude::*;

use crate::text::{
    lemma_split_on_append, lemma_split_on_single, bytes_range, bytes_view, chars_of, same_bytes, split_bytes, split_chars, split_on,
    string_from_chars, strings_view,
};

verus! {

broadcast use vstd::string::group_string_axioms;

/// One component of a path (`std::path::Component` on Unix), over
/// characters or over bytes.
pub enum PathComponent<T> {
    /// The leading separator of an absolute path.
    RootDir,
    /// A leading `.` of a relative path.
    CurDir,
    /// A `..`.
    ParentDir,
    /// Any other name between separators.
    Normal(Seq<T>),
}

/// The component that a segment between separators stands for: none for an
/// empty segment or `.`.
pub open spec fn segment_component<T>(seg: Seq<T>, dot: T) -> Option<PathComponent<T>> {
    if seg.len() == 0 || seg == seq![dot] {
        None
    } else if seg == seq![dot, dot] {
        Some(PathComponent::ParentDir)
    } else {
        Some(PathComponent::Normal(seg))
    }
}

/// The components of the segments `segs`, in order.
pub open spec fn segments_components<T>(segs: Seq<Seq<T>>, dot: T) -> Seq<PathComponent<T>>
    decreases segs.len(),
{
    if segs.len() == 0 {
        Seq::empty()
    } else {
        let rest = segments_components(segs.drop_last(), dot);
        match segment_component(segs.last(), dot) {
            Some(c) => rest.push(c),
            None => rest,
        }
    }
}

/// Whether the path `s` is absolute.
pub open spec fn has_root<T>(s: Seq<T>, slash: T) -> bool {
    s.len() > 0 && s[0] == slash
}

/// Whether the relative path `s` starts with the component `.`.
pub open spec fn leading_cur_dir<T>(s: Seq<T>, slash: T, dot: T) -> bool {
    !has_root(s, slash) && s.len() > 0 && s[0] == dot && (s.len() == 1 || s[1] == slash)
}

/// The components of the path `s` with separator `slash` and dot `dot`
/// (`Path::components` on Unix).
pub open spec fn path_components<T>(s: Seq<T>, slash: T, dot: T) -> Seq<PathComponent<T>> {
    if has_root(s, slash) {
        seq![PathComponent::RootDir] + segments_components(split_on(s.skip(1), slash), dot)
    } else if leading_cur_dir(s, slash, dot) {
        seq![PathComponent::CurDir] + segments_components(split_on(s.skip(1), slash), dot)
    } else {
        segments_components(split_on(s, slash), dot)
    }
}

/// The components of a path held as text.
pub open spec fn char_components(s: Seq<char>) -> Seq<PathComponent<char>> {
    path_components(s, '/', '.')
}

/// The components of a path held as bytes, as the operating system holds it.
pub open spec fn byte_components(s: Seq<u8>) -> Seq<PathComponent<u8>> {
    path_components(s, 47u8, 46u8)
}

/// The final component of the path `s`, where it is a name (`Path::file_name`).
pub open spec fn file_name_spec(s: Seq<char>) -> Option<Seq<char>> {
    let c = char_components(s);
    if c.len() > 0 {
        match c.last() {
            PathComponent::Normal(n) => Some(n),
            _ => None,
        }
    } else {
        None
    }
}

/// Whether the components of the path `base` begin the components of the
/// path `s`, both held as bytes (`Path::starts_with`): whole components
/// only, so `/tmpfoo` is not under `/tmp`.
pub open spec fn path_starts_with_spec(s: Seq<u8>, base: Seq<u8>) -> bool {
    let a = byte_components(s);
    let b = byte_components(base);
    b.len() <= a.len() && a.take(b.len() as int) == b
}

/// Any path is under itself.
pub proof fn lemma_starts_with_reflexive(s: Seq<u8>)
    ensures
        path_starts_with_spec(s, s),
{
    assert(byte_components(s).take(byte_components(s).len() as int) =~= byte_components(s));
}

/// Being under a path is transitive: a path under `b`, where `b` is under
/// `c`, is under `c`.
pub proof fn lemma_starts_with_transitive(a: Seq<u8>, b: Seq<u8>, c: Seq<u8>)
    requires
        path_starts_with_spec(a, b),
        path_starts_with_spec(b, c),
    ensures
        path_starts_with_spec(a, c),
{
    let ca = byte_components(a);
    let cb = byte_components(b);
    let cc = byte_components(c);
    assert forall|k: int| 0 <= k < cc.len() implies ca[k] == cc[k] by {
        assert(cb.take(cc.len() as int)[k] == cc[k]);
        assert(ca.take(cb.len() as int)[k] == cb[k]);
    }
    assert(ca.take(cc.len() as int) =~= cc);
}

/// The components of `d/name`, for a name that is a single normal component,
/// end with that name.
proof fn lemma_child_components<T>(d: Seq<T>, name: Seq<T>, slash: T, dot: T)
    requires
        slash != dot,
        name.len() > 0,
        forall|k: int| 0 <= k < name.len() ==> name[k] != slash,
        name != seq![dot],
        name != seq![dot, dot],
    ensures
        path_components(d + seq![slash] + name, slash, dot).len() > 0,
        path_components(d + seq![slash] + name, slash, dot).last() == PathComponent::Normal(name),
{
    let s = d + seq![slash] + name;
    let body = if has_root(s, slash) || leading_cur_dir(s, slash, dot) {
        s.skip(1)
    } else {
        s
    };
    let segs = split_on(body, slash);
    if has_root(s, slash) || leading_cur_dir(s, slash, dot) {
        if d.len() == 0 {
            assert(s.skip(1) =~= name);
            lemma_split_on_single(name, slash);
            assert(segs == seq![Seq::<T>::empty()].drop_last().push(name)) by {
                assert(seq![Seq::<T>::empty()].drop_last().push(name) =~= seq![name]);
            }
        } else {
            assert(s.skip(1) =~= d.skip(1) + seq![slash] + name);
            lemma_split_on_append(d.skip(1), slash, name);
        }
    } else {
        lemma_split_on_append(d, slash, name);
    }
    let prefix = segs.drop_last();
    assert(segs.drop_last().push(name) =~= segs) by {
        if has_root(s, slash) || leading_cur_dir(s, slash, dot) {
            if d.len() == 0 {
            } else {
                assert(segs == split_on(d.skip(1), slash).push(name));
            }
        } else {
            assert(segs == split_on(d, slash).push(name));
        }
    }
    assert(segs.last() == name);
    assert(segs.drop_last() =~= prefix);
    assert(segments_components(segs, dot) == segments_components(prefix, dot).push(
        PathComponent::Normal(name),
    ));
}

/// The file name of `dir/name`, for a name that is a single normal
/// component, is that name, whatever the directory: `/usr/bin/rm` gives `rm`.
pub proof fn lemma_file_name_of_child(d: Seq<char>, name: Seq<char>)
    requires
        name.len() > 0,
        forall|k: int| 0 <= k < name.len() ==> name[k] != '/',
        name != seq!['.'],
        name != seq!['.', '.'],
    ensures
        file_name_spec(d + seq!['/'] + name) == Some(name),
{
    lemma_child_components(d, name, '/', '.');
}

/// Adding one normal component to a non-empty path adds it to the path's
/// components.
proof fn lemma_child_components_push<T>(d: Seq<T>, name: Seq<T>, slash: T, dot: T)
    requires
        slash != dot,
        d.len() > 0,
        name.len() > 0,
        forall|k: int| 0 <= k < name.len() ==> name[k] != slash,
        name != seq![dot],
        name != seq![dot, dot],
    ensures
        path_components(d + seq![slash] + name, slash, dot) == path_components(d, slash, dot).push(
            PathComponent::Normal(name),
        ),
{
    let s = d + seq![slash] + name;
    assert(s[0] == d[0]);
    if d.len() == 1 {
        assert(s[1] == slash);
    } else {
        assert(s[1] == d[1]);
    }
    assert(has_root(s, slash) == has_root(d, slash));
    assert(leading_cur_dir(s, slash, dot) == leading_cur_dir(d, slash, dot));
    if has_root(d, slash) || leading_cur_dir(d, slash, dot) {
        assert(s.skip(1) =~= d.skip(1) + seq![slash] + name);
        lemma_split_on_append(d.skip(1), slash, name);
        let segs = split_on(d.skip(1), slash).push(name);
        assert(segs.drop_last() =~= split_on(d.skip(1), slash));
        let front = if has_root(d, slash) {
            seq![PathComponent::RootDir]
        } else {
            seq![PathComponent::CurDir]
        };
        let rest = segments_components(split_on(d.skip(1), slash), dot);
        assert(front + rest.push(PathComponent::Normal(name)) =~= (front + rest).push(
            PathComponent::Normal(name),
        ));
    } else {
        lemma_split_on_append(d, slash, name);
        let segs = split_on(d, slash).push(name);
        assert(segs.drop_last() =~= split_on(d, slash));
    }
}

/// A non-empty path with one more normal component lies under the path it
/// was made from: `dir/name` is under `dir`.
pub proof fn lemma_child_under_parent(d: Seq<u8>, name: Seq<u8>)
    requires
        d.len() > 0,
        name.len() > 0,
        forall|k: int| 0 <= k < name.len() ==> name[k] != 47u8,
        name != seq![46u8],
        name != seq![46u8, 46u8],
    ensures
        path_starts_with_spec(d + seq![47u8] + name, d),
{
    lemma_child_components_push(d, name, 47u8, 46u8);
    let ca = byte_components(d + seq![47u8] + name);
    let cb = byte_components(d);
    assert(ca.take(cb.len() as int) =~= cb);
}

/// A component of a path, as a value.
pub enum PathPart {
    RootDir,
    CurDir,
    ParentDir,
    Normal(String),
}

impl View for PathPart {
    type V = PathComponent<char>;

    open spec fn view(&self) -> PathComponent<char> {
        match self {
            PathPart::RootDir => PathComponent::RootDir,
            PathPart::CurDir => PathComponent::CurDir,
            PathPart::ParentDir => PathComponent::ParentDir,
            PathPart::Normal(s) => PathComponent::Normal(s@),
        }
    }
}

/// The views of a sequence of components.
pub open spec fn parts_view(v: Seq<PathPart>) -> Seq<PathComponent<char>> {
    v.map_values(|p: PathPart| p@)
}

fn segment_part(seg: &String) -> (r: Option<PathPart>)
    ensures
        match r {
            Some(p) => segment_component(seg@, '.') == Some(p@),
            None => segment_component(seg@, '.') is None,
        },
{
    let c = chars_of(seg.as_str());
    if c.len() == 0 {
        return None;
    }
    if c.len() == 1 && c[0] == '.' {
        assert(seg@ =~= seq!['.']);
        return None;
    }
    if c.len() == 2 && c[0] == '.' && c[1] == '.' {
        assert(seg@ =~= seq!['.', '.']);
        return Some(PathPart::ParentDir);
    }
    assert(seg@ != seq!['.']) by {
        if c.len() == 1 {
            assert(seg@[0] != seq!['.'][0]);
        }
    }
    assert(seg@ != seq!['.', '.']) by {
        if c.len() == 2 {
            if c[0] != '.' {
                assert(seg@[0] != seq!['.', '.'][0]);
            } else {
                assert(seg@[1] != seq!['.', '.'][1]);
            }
        }
    }
    Some(PathPart::Normal(seg.clone()))
}

/// The components of the path `s` (see [`char_components`]).
pub fn components(s: &str) -> (r: Vec<PathPart>)
    ensures
        parts_view(r@) == char_components(s@),
{
    let v = chars_of(s);
    let n = v.len();
    let mut parts: Vec<PathPart> = Vec::new();
    let from: usize = if n > 0 && v[0] == '/' {
        parts.push(PathPart::RootDir);
        1
    } else if n > 0 && v[0] == '.' && (n == 1 || v[1] == '/') {
        parts.push(PathPart::CurDir);
        1
    } else {
        0
    };
    let ghost front = parts_view(parts@);
    let body = string_from_chars(&v, from, n);
    let bv = chars_of(body.as_str());
    let segs = split_chars(&bv, '/');
    let ghost sv = strings_view(segs@);
    proof {
        assert(bv@ =~= s@.skip(from as int));
        assert(parts_view(parts@) =~= front + segments_components(sv.take(0), '.'));
    }
    let mut i: usize = 0;
    while i < segs.len()
        invariant
            i <= segs.len(),
            sv == strings_view(segs@),
            parts_view(parts@) == front + segments_components(sv.take(i as int), '.'),
        decreases segs.len() - i,
    {
        let part = segment_part(&segs[i]);
        let ghost before = parts_view(parts@);
        proof {
            assert(sv.take(i + 1).drop_last() =~= sv.take(i as int));
            assert(sv.take(i + 1).last() == segs@[i as int]@);
        }
        match part {
            Some(p) => {
                parts.push(p);
                proof {
                    assert(parts_view(parts@) =~= before.push(p@));
                    assert(before.push(p@) =~= front + segments_components(sv.take(i as int), '.').push(
                        p@,
                    ));
                }
            },
            None => {},
        }
        i = i + 1;
    }
    proof {
        assert(sv.take(segs.len() as int) =~= sv);
        if n > 0 && v@[0] == '/' {
            assert(has_root(s@, '/'));
        } else if n > 0 && v@[0] == '.' && (n == 1 || v@[1] == '/') {
            assert(leading_cur_dir(s@, '/', '.'));
        } else {
            assert(!has_root(s@, '/') && !leading_cur_dir(s@, '/', '.'));
            assert(s@.skip(0) =~= s@);
        }
    }
    parts
}

/// The final component of the path `s`, where it is a name (see
/// [`file_name_spec`]).
pub fn file_name(s: &str) -> (r: Option<String>)
    ensures
        match r {
            Some(f) => file_name_spec(s@) == Some(f@),
            None => file_name_spec(s@) is None,
        },
{
    let parts = components(s);
    let ghost pv = parts_view(parts@);
    if parts.len() == 0 {
        return None;
    }
    let last = parts.len() - 1;
    assert(pv.last() == parts@[last as int]@);
    match &parts[last] {
        PathPart::Normal(name) => Some(name.clone()),
        _ => None,
    }
}

/// A component of a path held as bytes, as a value.
pub enum BytePart {
    RootDir,
    CurDir,
    ParentDir,
    Normal(Vec<u8>),
}

impl View for BytePart {
    type V = PathComponent<u8>;

    open spec fn view(&self) -> PathComponent<u8> {
        match self {
            BytePart::RootDir => PathComponent::RootDir,
            BytePart::CurDir => PathComponent::CurDir,
            BytePart::ParentDir => PathComponent::ParentDir,
            BytePart::Normal(s) => PathComponent::Normal(s@),
        }
    }
}

/// The views of a sequence of byte components.
pub open spec fn byte_parts_view(v: Seq<BytePart>) -> Seq<PathComponent<u8>> {
    v.map_values(|p: BytePart| p@)
}

fn segment_byte_part(seg: &Vec<u8>) -> (r: Option<BytePart>)
    ensures
        match r {
            Some(p) => segment_component(seg@, 46u8) == Some(p@),
            None => segment_component(seg@, 46u8) is None,
        },
{
    if seg.len() == 0 {
        return None;
    }
    if seg.len() == 1 && seg[0] == 46 {
        assert(seg@ =~= seq![46u8]);
        return None;
    }
    if seg.len() == 2 && seg[0] == 46 && seg[1] == 46 {
        assert(seg@ =~= seq![46u8, 46u8]);
        return Some(BytePart::ParentDir);
    }
    assert(seg@ != seq![46u8]) by {
        if seg.len() == 1 {
            assert(seg@[0] != seq![46u8][0]);
        }
    }
    assert(seg@ != seq![46u8, 46u8]) by {
        if seg.len() == 2 {
            if seg[0] != 46 {
                assert(seg@[0] != seq![46u8, 46u8][0]);
            } else {
                assert(seg@[1] != seq![46u8, 46u8][1]);
            }
        }
    }
    let name = bytes_range(seg, 0, seg.len());
    assert(name@ =~= seg@);
    Some(BytePart::Normal(name))
}

/// The components of the path `s`, held as bytes (see [`byte_components`]).
pub fn byte_components_of(s: &Vec<u8>) -> (r: Vec<BytePart>)
    ensures
        byte_parts_view(r@) == byte_components(s@),
{
    let n = s.len();
    let mut parts: Vec<BytePart> = Vec::new();
    let from: usize = if n > 0 && s[0] == 47 {
        parts.push(BytePart::RootDir);
        1
    } else if n > 0 && s[0] == 46 && (n == 1 || s[1] == 47) {
        parts.push(BytePart::CurDir);
        1
    } else {
        0
    };
    let ghost front = byte_parts_view(parts@);
    let body = bytes_range(s, from, n);
    let segs = split_bytes(&body, 47);
    let ghost sv = bytes_view(segs@);
    proof {
        assert(body@ =~= s@.skip(from as int));
        assert(byte_parts_view(parts@) =~= front + segments_components(sv.take(0), 46u8));
    }
    let mut i: usize = 0;
    while i < segs.len()
        invariant
            i <= segs.len(),
            sv == bytes_view(segs@),
            byte_parts_view(parts@) == front + segments_components(sv.take(i as int), 46u8),
        decreases segs.len() - i,
    {
        let part = segment_byte_part(&segs[i]);
        let ghost before = byte_parts_view(parts@);
        proof {
            assert(sv.take(i + 1).drop_last() =~= sv.take(i as int));
            assert(sv.take(i + 1).last() == segs@[i as int]@);
        }
        match part {
            Some(p) => {
                parts.push(p);
                proof {
                    assert(byte_parts_view(parts@) =~= before.push(p@));
                    assert(before.push(p@) =~= front + segments_components(
                        sv.take(i as int),
                        46u8,
                    ).push(p@));
                }
            },
            None => {},
        }
        i = i + 1;
    }
    proof {
        assert(sv.take(segs.len() as int) =~= sv);
        if n > 0 && s@[0] == 47 {
            assert(has_root(s@, 47u8));
        } else if n > 0 && s@[0] == 46 && (n == 1 || s@[1] == 47) {
            assert(leading_cur_dir(s@, 47u8, 46u8));
        } else {
            assert(!has_root(s@, 47u8) && !leading_cur_dir(s@, 47u8, 46u8));
            assert(s@.skip(0) =~= s@);
        }
    }
    parts
}

fn same_byte_part(x: &BytePart, y: &BytePart) -> (b: bool)
    ensures
        b == (x@ == y@),
{
    match (x, y) {
        (BytePart::RootDir, BytePart::RootDir) => true,
        (BytePart::CurDir, BytePart::CurDir) => true,
        (BytePart::ParentDir, BytePart::ParentDir) => true,
        (BytePart::Normal(a), BytePart::Normal(b)) => same_bytes(a, b),
        _ => false,
    }
}

/// Whether the path `s` begins with the path `base`, component by
/// component, both held as bytes (see [`path_starts_with_spec`]).
pub fn path_starts_with(s: &Vec<u8>, base: &Vec<u8>) -> (b: bool)
    ensures
        b == path_starts_with_spec(s@, base@),
{
    let a = byte_components_of(s);
    let c = byte_components_of(base);
    let ghost av = byte_parts_view(a@);
    let ghost cv = byte_parts_view(c@);
    if c.len() > a.len() {
        return false;
    }
    let mut k: usize = 0;
    while k < c.len()
        invariant
            k <= c.len() <= a.len(),
            av == byte_parts_view(a@),
            cv == byte_parts_view(c@),
            av == byte_components(s@),
            cv == byte_components(base@),
            forall|m: int| 0 <= m < k ==> av[m] == cv[m],
        decreases c.len() - k,
    {
        if !same_byte_part(&a[k], &c[k]) {
            assert(av[k as int] == a@[k as int]@);
            assert(cv[k as int] == c@[k as int]@);
            assert(av.take(cv.len() as int)[k as int] != cv[k as int]);
            return false;
        }
        k = k + 1;
    }
    assert(av.take(cv.len() as int) =~= cv);
    true
}

} // verus!
