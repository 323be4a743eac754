//! Paths as sequences of byte components, with the few operations that the
//! tree model needs: parsing, joining, stripping a root, and extensions.
use vstd::prelude::*;
use vstd::string::StringSliceAdditionalSpecFns;

verus! {

/// The byte that separates path components (`/`).
pub const SEPARATOR: u8 = 0x2f;

/// The byte that introduces an extension (`.`).
pub const DOT: u8 = 0x2e;

/// Abstract value of a path: whether it starts at the filesystem root, and
/// its components in order.
pub struct PathView {
    pub absolute: bool,
    pub parts: Seq<Seq<u8>>,
}

/// A filesystem path, held as its components. Empty components and `.`
/// components are never stored, so two spellings of one path compare equal.
#[derive(Debug, Clone, PartialEq, Eq, Hash)]
pub struct FsPath {
    pub absolute: bool,
    pub parts: Vec<Vec<u8>>,
}

/// The contents of a vector of byte vectors.
pub open spec fn deep(v: Seq<Vec<u8>>) -> Seq<Seq<u8>> {
    v.map_values(|c: Vec<u8>| c@)
}

impl View for FsPath {
    type V = PathView;

    open spec fn view(&self) -> PathView {
        PathView { absolute: self.absolute, parts: deep(self.parts@) }
    }
}

/// Appends a finished component, unless it is empty or `.`.
pub open spec fn flush(parts: Seq<Seq<u8>>, cur: Seq<u8>) -> Seq<Seq<u8>> {
    if cur.len() == 0 || cur == seq![DOT] {
        parts
    } else {
        parts.push(cur)
    }
}

/// The components finished within the first `n` bytes, and the one still open.
pub open spec fn scan(b: Seq<u8>, n: nat) -> (Seq<Seq<u8>>, Seq<u8>)
    decreases n,
{
    if n == 0 {
        (seq![], seq![])
    } else {
        let prev = scan(b, (n - 1) as nat);
        if b[n - 1] == SEPARATOR {
            (flush(prev.0, prev.1), seq![])
        } else {
            (prev.0, prev.1.push(b[n - 1]))
        }
    }
}

/// The path that a byte string spells.
pub open spec fn parse_bytes(b: Seq<u8>) -> PathView {
    let s = scan(b, b.len());
    PathView { absolute: b.len() > 0 && b[0] == SEPARATOR, parts: flush(s.0, s.1) }
}

/// `rel` resolved against `base`.
pub open spec fn join_view(base: PathView, rel: PathView) -> PathView {
    if rel.absolute {
        rel
    } else {
        PathView { absolute: base.absolute, parts: base.parts + rel.parts }
    }
}

/// What is left of `p` below `base`, if `base` is a leading part of it.
pub open spec fn strip_view(p: PathView, base: PathView) -> Option<PathView> {
    if p.absolute == base.absolute && base.parts.len() <= p.parts.len() && p.parts.subrange(
        0,
        base.parts.len() as int,
    ) == base.parts {
        Some(PathView { absolute: false, parts: p.parts.subrange(base.parts.len() as int, p.parts.len() as int) })
    } else {
        None
    }
}

/// The last component, unless the path is empty or ends in `..`.
pub open spec fn file_name(p: PathView) -> Option<Seq<u8>> {
    if p.parts.len() > 0 && p.parts.last() != seq![DOT, DOT] {
        Some(p.parts.last())
    } else {
        None
    }
}

/// The file name of a path, or nothing.
pub open spec fn name_bytes(p: PathView) -> Seq<u8> {
    match file_name(p) {
        Some(n) => n,
        None => seq![],
    }
}

/// Position of the last `.` among the first `n` bytes of a name, not
/// counting a leading one; -1 if there is none.
pub open spec fn last_dot(name: Seq<u8>, n: int) -> int
    decreases n,
{
    if n <= 1 {
        -1
    } else if name[n - 1] == DOT {
        n - 1
    } else {
        last_dot(name, n - 1)
    }
}

/// The extension of a path: what follows the last `.` of its file name.
pub open spec fn extension(p: PathView) -> Option<Seq<u8>> {
    match file_name(p) {
        Some(name) => {
            let k = last_dot(name, name.len() as int);
            if k > 0 {
                Some(name.subrange(k + 1, name.len() as int))
            } else {
                None
            }
        },
        None => None,
    }
}

/// A file name without its extension.
pub open spec fn stem(name: Seq<u8>) -> Seq<u8> {
    let k = last_dot(name, name.len() as int);
    if k > 0 {
        name.subrange(0, k)
    } else {
        name
    }
}

/// `p` with the extension of its file name replaced by `ext` (or removed,
/// for an empty `ext`).
pub open spec fn with_extension_view(p: PathView, ext: Seq<u8>) -> PathView {
    match file_name(p) {
        Some(name) => PathView {
            absolute: p.absolute,
            parts: p.parts.drop_last().push(
                if ext.len() == 0 {
                    stem(name)
                } else {
                    stem(name) + seq![DOT] + ext
                },
            ),
        },
        None => p,
    }
}

/// A copy of a byte vector.
pub fn copy_bytes(b: &Vec<u8>) -> (r: Vec<u8>)
    ensures
        r@ == b@,
{
    let mut r: Vec<u8> = Vec::new();
    let mut i: usize = 0;
    while i < b.len()
        invariant
            i <= b@.len(),
            r@ == b@.subrange(0, i as int),
        decreases b@.len() - i,
    {
        r.push(b[i]);
        i += 1;
    }
    assert(r@ =~= b@);
    r
}

/// Whether two byte vectors hold the same bytes.
pub fn bytes_eq(a: &Vec<u8>, b: &Vec<u8>) -> (r: bool)
    ensures
        r == (a@ == b@),
{
    if a.len() != b.len() {
        return false;
    }
    let mut i: usize = 0;
    while i < a.len()
        invariant
            a@.len() == b@.len(),
            i <= a@.len(),
            a@.subrange(0, i as int) == b@.subrange(0, i as int),
        decreases a@.len() - i,
    {
        if a[i] != b[i] {
            assert(a@[i as int] != b@[i as int]);
            return false;
        }
        assert(a@.subrange(0, i + 1) =~= a@.subrange(0, i as int).push(a@[i as int]));
        assert(b@.subrange(0, i + 1) =~= b@.subrange(0, i as int).push(b@[i as int]));
        i += 1;
    }
    assert(a@ =~= a@.subrange(0, i as int));
    assert(b@ =~= b@.subrange(0, i as int));
    true
}

/// Appends copies of `src[from..to]` to `dst`.
fn copy_parts(src: &Vec<Vec<u8>>, from: usize, to: usize, dst: &mut Vec<Vec<u8>>)
    requires
        from <= to <= src@.len(),
    ensures
        deep(final(dst)@) == deep(old(dst)@) + deep(src@).subrange(from as int, to as int),
{
    let mut i: usize = from;
    while i < to
        invariant
            from <= i <= to <= src@.len(),
            deep(dst@) == deep(old(dst)@) + deep(src@).subrange(from as int, i as int),
        decreases to - i,
    {
        let c = copy_bytes(&src[i]);
        let ghost before = dst@;
        dst.push(c);
        assert(deep(dst@) =~= deep(before).push(src@[i as int]@));
        assert(deep(src@).subrange(from as int, i + 1) =~= deep(src@).subrange(from as int, i as int).push(src@[i as int]@));
        i += 1;
    }
}

/// Appends a finished component to `parts`, unless it is empty or `.`.
fn push_part(parts: &mut Vec<Vec<u8>>, cur: Vec<u8>)
    ensures
        deep(final(parts)@) == flush(deep(old(parts)@), cur@),
{
    if cur.len() == 0 {
    } else if cur.len() == 1 && cur[0] == DOT {
        assert(cur@ =~= seq![DOT]);
    } else {
        let ghost c = cur@;
        parts.push(cur);
        assert(deep(parts@) =~= deep(old(parts)@).push(c));
    }
}

impl FsPath {
    /// The empty relative path.
    pub fn new() -> (r: FsPath)
        ensures
            r@ == (PathView { absolute: false, parts: Seq::<Seq<u8>>::empty() }),
    {
        let r = FsPath { absolute: false, parts: Vec::new() };
        assert(r@.parts =~= Seq::<Seq<u8>>::empty());
        r
    }

    /// Reads a path written with `/` separators. Empty and `.` components
    /// are dropped.
    pub fn parse(s: &str) -> (r: FsPath)
        ensures
            r@ == parse_bytes(s.spec_bytes()),
    {
        let b = s.as_bytes();
        let mut parts: Vec<Vec<u8>> = Vec::new();
        let mut cur: Vec<u8> = Vec::new();
        let mut i: usize = 0;
        assert(deep(parts@) =~= seq![]);
        while i < b.len()
            invariant
                i <= b@.len(),
                b@ == s.spec_bytes(),
                (deep(parts@), cur@) == scan(b@, i as nat),
            decreases b@.len() - i,
        {
            if b[i] == SEPARATOR {
                push_part(&mut parts, cur);
                cur = Vec::new();
                assert(cur@ =~= seq![]);
            } else {
                cur.push(b[i]);
            }
            i += 1;
        }
        push_part(&mut parts, cur);
        FsPath { absolute: b.len() > 0 && b[0] == SEPARATOR, parts }
    }

    /// A copy of this path.
    pub fn duplicate(&self) -> (r: FsPath)
        ensures
            r@ == self@,
    {
        let mut parts: Vec<Vec<u8>> = Vec::new();
        copy_parts(&self.parts, 0, self.parts.len(), &mut parts);
        assert(deep(parts@) =~= deep(self.parts@));
        FsPath { absolute: self.absolute, parts }
    }

    /// `rel` resolved against this path; an absolute `rel` replaces it.
    pub fn join(&self, rel: &FsPath) -> (r: FsPath)
        ensures
            r@ == join_view(self@, rel@),
    {
        if rel.absolute {
            return rel.duplicate();
        }
        let mut parts: Vec<Vec<u8>> = Vec::new();
        copy_parts(&self.parts, 0, self.parts.len(), &mut parts);
        copy_parts(&rel.parts, 0, rel.parts.len(), &mut parts);
        assert(deep(parts@) =~= deep(self.parts@) + deep(rel.parts@));
        FsPath { absolute: self.absolute, parts }
    }

    /// This path with the file name `name` appended.
    pub fn join_name(&self, name: &str) -> (r: FsPath)
        ensures
            r@ == join_view(self@, parse_bytes(name.spec_bytes())),
    {
        let rel = FsPath::parse(name);
        self.join(&rel)
    }

    /// The part of this path below `base`, if `base` leads it.
    pub fn strip_prefix(&self, base: &FsPath) -> (r: Option<FsPath>)
        ensures
            r matches Some(rel) ==> strip_view(self@, base@) == Some(rel@),
            r is None ==> strip_view(self@, base@) is None,
    {
        if self.absolute != base.absolute || base.parts.len() > self.parts.len() {
            return None;
        }
        let n = base.parts.len();
        let mut i: usize = 0;
        while i < n
            invariant
                n == base.parts@.len(),
                n <= self.parts@.len(),
                i <= n,
                deep(self.parts@).subrange(0, i as int) == deep(base.parts@).subrange(0, i as int),
            decreases n - i,
        {
            if !bytes_eq(&self.parts[i], &base.parts[i]) {
                assert(deep(self.parts@).subrange(0, n as int)[i as int] != deep(base.parts@)[i as int]);
                return None;
            }
            assert(deep(self.parts@).subrange(0, i + 1) =~= deep(self.parts@).subrange(0, i as int).push(deep(self.parts@)[i as int]));
            assert(deep(base.parts@).subrange(0, i + 1) =~= deep(base.parts@).subrange(0, i as int).push(deep(base.parts@)[i as int]));
            i += 1;
        }
        assert(deep(base.parts@) =~= deep(base.parts@).subrange(0, n as int));
        let mut parts: Vec<Vec<u8>> = Vec::new();
        copy_parts(&self.parts, n, self.parts.len(), &mut parts);
        assert(deep(parts@) =~= deep(self.parts@).subrange(n as int, self.parts@.len() as int));
        Some(FsPath { absolute: false, parts })
    }

    /// Position of the last `.` of `name` past its first byte, if any.
    fn last_dot_of(name: &Vec<u8>) -> (r: Option<usize>)
        ensures
            r matches Some(k) ==> k as int == last_dot(name@, name@.len() as int) && 0 < k < name@.len(),
            r is None ==> last_dot(name@, name@.len() as int) == -1,
    {
        let mut n: usize = name.len();
        while n > 1
            invariant
                n <= name@.len(),
                n >= 1 || name@.len() == 0,
                last_dot(name@, name@.len() as int) == last_dot(name@, n as int),
            decreases n,
        {
            if name[n - 1] == DOT {
                return Some(n - 1);
            }
            n -= 1;
        }
        None
    }

    /// The bytes of the file name, empty where there is none.
    pub fn file_name_bytes(&self) -> (r: Vec<u8>)
        ensures
            r@ == name_bytes(self@),
    {
        if self.has_file_name() {
            copy_bytes(&self.parts[self.parts.len() - 1])
        } else {
            let r: Vec<u8> = Vec::new();
            assert(r@ =~= seq![]);
            r
        }
    }

    /// Whether the last component is a file name (not `..`).
    fn has_file_name(&self) -> (r: bool)
        ensures
            r == (file_name(self@) is Some),
    {
        let n = self.parts.len();
        if n == 0 {
            return false;
        }
        let last = &self.parts[n - 1];
        let dotdot = last.len() == 2 && last[0] == DOT && last[1] == DOT;
        proof {
            assert(self@.parts.last() == last@);
            if dotdot {
                assert(last@ =~= seq![DOT, DOT]);
            }
        }
        !dotdot
    }

    /// Whether the extension of this path is exactly `ext`.
    pub fn has_extension(&self, ext: &str) -> (r: bool)
        ensures
            r == (extension(self@) == Some(ext.spec_bytes())),
    {
        if !self.has_file_name() {
            return false;
        }
        let name = &self.parts[self.parts.len() - 1];
        assert(file_name(self@) == Some(name@));
        match FsPath::last_dot_of(name) {
            None => false,
            Some(k) => {
                let e = ext.as_bytes();
                let ghost tail = name@.subrange(k + 1, name@.len() as int);
                assert(extension(self@) == Some(tail));
                let len = name.len() - (k + 1);
                if len != e.len() {
                    assert(tail.len() != e@.len());
                    return false;
                }
                let mut i: usize = 0;
                while i < len
                    invariant
                        k < name@.len(),
                        len == name@.len() - (k + 1),
                        len == e@.len(),
                        tail == name@.subrange(k + 1, name@.len() as int),
                        name@.len() <= usize::MAX,
                        e@ == ext.spec_bytes(),
                        extension(self@) == Some(tail),
                        i <= len,
                        forall|j: int| 0 <= j < i ==> tail[j] == e@[j],
                    decreases len - i,
                {
                    let idx = k + 1 + i;
                    if name[idx] != e[i] {
                        assert(tail[i as int] != e@[i as int]);
                        return false;
                    }
                    i += 1;
                }
                assert(tail =~= e@);
                true
            },
        }
    }

    /// The file name `name` without its extension.
    fn stem_of(name: &Vec<u8>) -> (r: Vec<u8>)
        ensures
            r@ == stem(name@),
    {
        let end: usize = match FsPath::last_dot_of(name) {
            Some(k) => k,
            None => name.len(),
        };
        let mut r: Vec<u8> = Vec::new();
        let mut i: usize = 0;
        while i < end
            invariant
                end <= name@.len(),
                i <= end,
                r@ == name@.subrange(0, i as int),
            decreases end - i,
        {
            r.push(name[i]);
            i += 1;
            assert(r@ =~= name@.subrange(0, i as int));
        }
        assert(name@.subrange(0, name@.len() as int) =~= name@);
        r
    }

    /// This path with the extension of its file name replaced by `ext`.
    pub fn with_extension(&self, ext: &str) -> (r: FsPath)
        ensures
            r@ == with_extension_view(self@, ext.spec_bytes()),
    {
        if !self.has_file_name() {
            return self.duplicate();
        }
        let n = self.parts.len();
        let name = &self.parts[n - 1];
        assert(file_name(self@) == Some(name@));
        let mut last = FsPath::stem_of(name);
        let e = ext.as_bytes();
        if e.len() > 0 {
            last.push(DOT);
            append_bytes(&mut last, e);
        }
        let mut parts: Vec<Vec<u8>> = Vec::new();
        copy_parts(&self.parts, 0, n - 1, &mut parts);
        let ghost l = last@;
        assert(l == (if e@.len() == 0 { stem(name@) } else { stem(name@) + seq![DOT] + e@ }));
        parts.push(last);
        assert(deep(parts@) =~= self@.parts.drop_last().push(l));
        FsPath { absolute: self.absolute, parts }
    }
}

/// Appends the bytes of `src` to `dst`.
pub fn append_bytes(dst: &mut Vec<u8>, src: &[u8])
    ensures
        final(dst)@ == old(dst)@ + src@,
{
    let mut j: usize = 0;
    while j < src.len()
        invariant
            j <= src@.len(),
            dst@ == old(dst)@ + src@.subrange(0, j as int),
        decreases src@.len() - j,
    {
        dst.push(src[j]);
        j += 1;
        assert(dst@ =~= old(dst)@ + src@.subrange(0, j as int));
    }
    assert(src@.subrange(0, src@.len() as int) =~= src@);
}

} // verus!
