//! File system paths as lists of components, and the names that the server keeps to itself.
use crate::text::{
    chars_of, has_prefix, join, joined, lemma_pieces_nonempty, pieces, replace, replaced, same, split,
    starts_with, texts,
};
use vstd::prelude::*;
use vstd::string::*;

verus! {

/// One component of a path: a name that is text, or the bytes of one that is not.
#[derive(Debug)]
pub enum PathPart {
    Text(String),
    Raw(Vec<u8>),
}

/// What a component is.
pub enum PartView {
    Text(Seq<char>),
    Raw(Seq<u8>),
}

impl View for PathPart {
    type V = PartView;

    open spec fn view(&self) -> PartView {
        match self {
            PathPart::Text(s) => PartView::Text(s@),
            PathPart::Raw(b) => PartView::Raw(b@),
        }
    }
}

/// A path: whether it starts at the root, and its components.
#[derive(Debug)]
pub struct FsPath {
    pub absolute: bool,
    pub parts: Vec<PathPart>,
}

/// What a path is.
pub struct FsPathView {
    pub absolute: bool,
    pub parts: Seq<PartView>,
}

/// The views of a list of components.
pub open spec fn part_views(v: Seq<PathPart>) -> Seq<PartView> {
    v.map_values(|p: PathPart| p@)
}

impl View for FsPath {
    type V = FsPathView;

    open spec fn view(&self) -> FsPathView {
        FsPathView { absolute: self.absolute, parts: part_views(self.parts@) }
    }
}

/// The components of text names.
pub open spec fn text_parts(names: Seq<Seq<char>>) -> Seq<PartView> {
    names.map_values(|n: Seq<char>| PartView::Text(n))
}

/// The names that separators leave in a text that continues a path: the empty ones and the ones
/// that stand for the current directory do not count.
pub open spec fn proper_names(names: Seq<Seq<char>>) -> Seq<Seq<char>>
    decreases names.len(),
{
    if names.len() == 0 {
        Seq::empty()
    } else {
        let front = proper_names(names.drop_last());
        if names.last().len() == 0 || names.last() == seq!['.'] {
            front
        } else {
            front.push(names.last())
        }
    }
}

/// The name of a component, where it is text.
pub open spec fn part_text(p: PartView) -> Option<Seq<char>> {
    match p {
        PartView::Text(s) => Some(s),
        PartView::Raw(_) => None,
    }
}

impl FsPathView {
    /// The path without its last component.
    pub open spec fn parent(self) -> Option<FsPathView> {
        if self.parts.len() == 0 {
            None
        } else {
            Some(FsPathView { absolute: self.absolute, parts: self.parts.drop_last() })
        }
    }

    /// The last component, where it names an entry of its directory.
    pub open spec fn file_name(self) -> Option<PartView> {
        if self.parts.len() == 0 || self.parts.last() == PartView::Text(seq!['.'])
            || self.parts.last() == PartView::Text(seq!['.', '.']) {
            None
        } else {
            Some(self.parts.last())
        }
    }

    /// The text of the last component, where it names an entry of its directory.
    pub open spec fn file_name_text(self) -> Option<Seq<char>> {
        match self.file_name() {
            Some(p) => part_text(p),
            None => None,
        }
    }

    /// Whether the components of `base` are the first ones of this path.
    pub open spec fn starts_with(self, base: FsPathView) -> bool {
        if base.parts.len() == 0 && !base.absolute {
            true
        } else {
            &&& self.absolute == base.absolute
            &&& self.parts.len() >= base.parts.len()
            &&& self.parts.take(base.parts.len() as int) == base.parts
        }
    }

    /// What follows `base` in this path.
    pub open spec fn strip_prefix(self, base: FsPathView) -> Option<FsPathView> {
        if self.starts_with(base) {
            Some(
                FsPathView {
                    absolute: self.absolute && !base.absolute,
                    parts: self.parts.skip(base.parts.len() as int),
                },
            )
        } else {
            None
        }
    }

    /// The path that the text `name` leads to from this one.
    pub open spec fn join(self, name: Seq<char>) -> FsPathView {
        let names = pieces(name, '/');
        let added = text_parts(proper_names(names));
        if name.len() > 0 && name[0] == '/' {
            FsPathView { absolute: true, parts: added }
        } else if self.parts.len() == 0 && !self.absolute && names[0] == seq!['.'] {
            FsPathView { absolute: false, parts: seq![PartView::Text(seq!['.'])] + added }
        } else {
            FsPathView { absolute: self.absolute, parts: self.parts + added }
        }
    }

    /// Whether every component is text.
    pub open spec fn is_text(self) -> bool {
        forall|i: int| 0 <= i < self.parts.len() ==> (#[trigger] self.parts[i]) is Text
    }

    /// The path as text, where every component is text.
    pub open spec fn to_text(self) -> Option<Seq<char>> {
        if self.is_text() {
            let names = self.parts.map_values(|p: PartView| p->Text_0);
            if self.absolute {
                Some(seq!['/'] + joined(names, '/'))
            } else {
                Some(joined(names, '/'))
            }
        } else {
            None
        }
    }

    /// Whether the last component's name has an extension: a dot that is not its first character.
    pub open spec fn has_extension(self) -> bool {
        match self.file_name() {
            Some(PartView::Text(s)) => s.len() > 0 && s.skip(1).contains('.'),
            Some(PartView::Raw(b)) => b.len() > 0 && b.skip(1).contains(0x2eu8),
            None => false,
        }
    }
}

/// Whether two byte vectors are equal.
pub fn same_bytes(a: &Vec<u8>, b: &Vec<u8>) -> (r: bool)
    ensures
        r == (a@ == b@),
{
    if a.len() != b.len() {
        return false;
    }
    let mut i: usize = 0;
    while i < a.len()
        invariant
            i <= a.len(),
            a@.len() == b@.len(),
            forall|j: int| 0 <= j < i ==> a@[j] == b@[j],
        decreases a.len() - i,
    {
        if a[i] != b[i] {
            return false;
        }
        i = i + 1;
    }
    assert(a@ =~= b@);
    true
}

impl PathPart {
    /// Whether two components are the same.
    pub fn same_part(&self, other: &PathPart) -> (r: bool)
        ensures
            r == (self@ == other@),
    {
        match (self, other) {
            (PathPart::Text(a), PathPart::Text(b)) => same(a.as_str(), b.as_str()),
            (PathPart::Raw(a), PathPart::Raw(b)) => same_bytes(a, b),
            _ => false,
        }
    }

    /// The name of the component, where it is text.
    pub fn text(&self) -> (r: Option<&str>)
        ensures
            match r {
                Some(s) => part_text(self@) == Some(s@),
                None => part_text(self@) is None,
            },
    {
        match self {
            PathPart::Text(s) => Some(s.as_str()),
            PathPart::Raw(_) => None,
        }
    }

    /// A copy of the component.
    pub fn copy(&self) -> (r: PathPart)
        ensures
            r@ == self@,
    {
        match self {
            PathPart::Text(s) => PathPart::Text(s.clone()),
            PathPart::Raw(b) => {
                let mut out: Vec<u8> = Vec::new();
                let mut i: usize = 0;
                while i < b.len()
                    invariant
                        i <= b.len(),
                        out@ == b@.take(i as int),
                    decreases b.len() - i,
                {
                    out.push(b[i]);
                    i = i + 1;
                    assert(b@.take(i as int) =~= b@.take(i as int - 1).push(b@[i as int - 1]));
                }
                assert(b@.take(i as int) =~= b@);
                PathPart::Raw(out)
            },
        }
    }
}

/// Copies the components of a list from one position up to, not including, another.
fn copy_parts(parts: &Vec<PathPart>, from: usize, to: usize) -> (r: Vec<PathPart>)
    requires
        from <= to <= parts.len(),
    ensures
        part_views(r@) == part_views(parts@).subrange(from as int, to as int),
{
    let mut out: Vec<PathPart> = Vec::new();
    let mut i: usize = from;
    while i < to
        invariant
            from <= i <= to <= parts.len(),
            part_views(out@) == part_views(parts@).subrange(from as int, i as int),
        decreases to - i,
    {
        let ghost before = part_views(out@);
        out.push(parts[i].copy());
        i = i + 1;
        proof {
            assert(part_views(out@) =~= before.push(part_views(parts@)[i as int - 1]));
            assert(part_views(parts@).subrange(from as int, i as int) =~= before.push(
                part_views(parts@)[i as int - 1],
            ));
        }
    }
    out
}

impl FsPath {
    /// A copy of the path.
    pub fn copy(&self) -> (r: FsPath)
        ensures
            r@ == self@,
    {
        let parts = copy_parts(&self.parts, 0, self.parts.len());
        assert(part_views(self.parts@).subrange(0, self.parts@.len() as int) =~= part_views(
            self.parts@,
        ));
        FsPath { absolute: self.absolute, parts }
    }

    /// Whether two paths are the same.
    pub fn same_path(&self, other: &FsPath) -> (r: bool)
        ensures
            r == (self@ == other@),
    {
        if self.absolute != other.absolute || self.parts.len() != other.parts.len() {
            assert(self@.parts.len() == self.parts@.len() && other@.parts.len() == other.parts@.len());
            return false;
        }
        proof {
            assert(other@.parts.take(other@.parts.len() as int) =~= other@.parts);
            assert(self@.parts.take(self@.parts.len() as int) =~= self@.parts);
        }
        self.shares_parts(other)
    }

    /// Whether this path begins with the components of another.
    fn shares_parts(&self, base: &FsPath) -> (r: bool)
        requires
            self@.parts.len() >= base@.parts.len(),
        ensures
            r == (self@.parts.take(base@.parts.len() as int) == base@.parts),
    {
        let mut i: usize = 0;
        while i < base.parts.len()
            invariant
                i <= base.parts.len(),
                self@.parts.len() >= base@.parts.len(),
                forall|j: int| 0 <= j < i ==> self@.parts[j] == base@.parts[j],
            decreases base.parts.len() - i,
        {
            if !self.parts[i].same_part(&base.parts[i]) {
                proof {
                    assert(self@.parts.take(base@.parts.len() as int)[i as int] != base@.parts[i as int]);
                }
                return false;
            }
            i = i + 1;
        }
        assert(self@.parts.take(base@.parts.len() as int) =~= base@.parts);
        true
    }

    /// The path without its last component.
    pub fn parent(&self) -> (r: Option<FsPath>)
        ensures
            match r {
                Some(p) => self@.parent() == Some(p@),
                None => self@.parent() is None,
            },
    {
        let n = self.parts.len();
        if n == 0 {
            return None;
        }
        let parts = copy_parts(&self.parts, 0, n - 1);
        assert(part_views(self.parts@).subrange(0, n - 1) =~= part_views(self.parts@).drop_last());
        Some(FsPath { absolute: self.absolute, parts })
    }

    /// The last component, where it names an entry of its directory.
    pub fn file_name(&self) -> (r: Option<&PathPart>)
        ensures
            match r {
                Some(p) => self@.file_name() == Some(p@),
                None => self@.file_name() is None,
            },
    {
        let n = self.parts.len();
        if n == 0 {
            return None;
        }
        proof {
            reveal_strlit(".");
            reveal_strlit("..");
            assert("."@ =~= seq!['.']);
            assert(".."@ =~= seq!['.', '.']);
        }
        match &self.parts[n - 1] {
            PathPart::Text(s) => if same(s.as_str(), ".") || same(s.as_str(), "..") {
                None
            } else {
                Some(&self.parts[n - 1])
            },
            PathPart::Raw(_) => Some(&self.parts[n - 1]),
        }
    }

    /// The text of the last component, where it names an entry of its directory.
    pub fn file_name_text(&self) -> (r: Option<&str>)
        ensures
            match r {
                Some(s) => self@.file_name_text() == Some(s@),
                None => self@.file_name_text() is None,
            },
    {
        match self.file_name() {
            Some(p) => p.text(),
            None => None,
        }
    }

    /// Whether the components of `base` are the first ones of this path.
    pub fn starts_with(&self, base: &FsPath) -> (r: bool)
        ensures
            r == self@.starts_with(base@),
    {
        if base.parts.len() == 0 && !base.absolute {
            true
        } else if self.absolute != base.absolute || self.parts.len() < base.parts.len() {
            false
        } else {
            self.shares_parts(base)
        }
    }

    /// What follows `base` in this path.
    pub fn strip_prefix(&self, base: &FsPath) -> (r: Option<FsPath>)
        ensures
            match r {
                Some(p) => self@.strip_prefix(base@) == Some(p@),
                None => self@.strip_prefix(base@) is None,
            },
    {
        if !self.starts_with(base) {
            return None;
        }
        let parts = copy_parts(&self.parts, base.parts.len(), self.parts.len());
        assert(self@.parts.skip(base@.parts.len() as int) =~= self@.parts.subrange(
            base@.parts.len() as int,
            self@.parts.len() as int,
        ));
        Some(FsPath { absolute: self.absolute && !base.absolute, parts })
    }

    /// The path that the text `name` leads to from this one.
    pub fn join(&self, name: &str) -> (r: FsPath)
        ensures
            r@ == self@.join(name@),
    {
        let names = split(name, '/');
        let rooted = starts_with(name, "/");
        proof {
            reveal_strlit("/");
            reveal_strlit(".");
            assert("/"@ =~= seq!['/']);
            assert("."@ =~= seq!['.']);
            assert(name@.len() > 0 ==> name@.take(1) =~= seq![name@[0]]);
            if rooted {
                assert(name@.take(1)[0] == '/');
            } else if name@.len() > 0 && name@[0] == '/' {
                assert(name@.take(1) =~= "/"@);
            }
            lemma_pieces_nonempty(name@, '/');
            assert(texts(names@)[0] == names@[0]@);
        }
        let mut out = if rooted {
            FsPath { absolute: true, parts: Vec::new() }
        } else {
            self.copy()
        };
        if !rooted && out.parts.len() == 0 && !out.absolute && same(names[0].as_str(), ".") {
            out.parts.push(PathPart::Text(String::from_str(".")));
            assert(out@.parts =~= seq![PartView::Text(seq!['.'])]);
        } else {
            assert(rooted ==> out@.parts =~= Seq::<PartView>::empty());
        }
        let ghost start = out@;
        assert(text_parts(proper_names(texts(names@).take(0))) =~= Seq::<PartView>::empty());
        assert(start.parts + Seq::<PartView>::empty() =~= start.parts);
        let mut i: usize = 0;
        while i < names.len()
            invariant
                i <= names.len(),
                "."@ == seq!['.'],
                out.absolute == start.absolute,
                out@.parts == start.parts + text_parts(proper_names(texts(names@).take(i as int))),
            decreases names.len() - i,
        {
            let ghost taken = texts(names@).take(i as int + 1);
            proof {
                assert(taken.drop_last() =~= texts(names@).take(i as int));
                assert(taken.last() == names@[i as int]@);
            }
            if !(names[i].as_str().is_empty() || same(names[i].as_str(), ".")) {
                let ghost before = out@.parts;
                let ghost had = proper_names(taken.drop_last());
                out.parts.push(PathPart::Text(names[i].clone()));
                proof {
                    assert(out@.parts =~= before.push(PartView::Text(taken.last())));
                    assert(text_parts(had.push(taken.last())) =~= text_parts(had).push(
                        PartView::Text(taken.last()),
                    ));
                    assert(out@.parts =~= start.parts + text_parts(proper_names(taken)));
                }
            }
            i = i + 1;
        }
        proof {
            assert(texts(names@).take(i as int) =~= texts(names@));
            assert(rooted ==> start.parts + text_parts(proper_names(texts(names@))) =~= text_parts(
                proper_names(texts(names@)),
            ));
        }
        out
    }

    /// The path as text, where every component is text.
    pub fn to_text(&self) -> (r: Option<String>)
        ensures
            match r {
                Some(s) => self@.to_text() == Some(s@),
                None => self@.to_text() is None,
            },
    {
        let mut names: Vec<String> = Vec::new();
        let mut i: usize = 0;
        while i < self.parts.len()
            invariant
                i <= self.parts.len(),
                names@.len() == i,
                forall|j: int| 0 <= j < i ==> (#[trigger] self@.parts[j]) == PartView::Text(names@[j]@),
            decreases self.parts.len() - i,
        {
            match &self.parts[i] {
                PathPart::Text(s) => {
                    names.push(s.clone());
                },
                PathPart::Raw(_) => {
                    proof {
                        assert(!(self@.parts[i as int] is Text));
                    }
                    return None;
                },
            }
            i = i + 1;
        }
        proof {
            assert(self@.parts.map_values(|p: PartView| p->Text_0) =~= texts(names@));
        }
        let tail = join(&names, '/');
        if self.absolute {
            let mut out = String::new();
            out.push('/');
            out.append(tail.as_str());
            assert(out@ =~= seq!['/'] + tail@);
            Some(out)
        } else {
            Some(tail)
        }
    }

    /// Whether the last component's name has an extension.
    pub fn has_extension(&self) -> (r: bool)
        ensures
            r == self@.has_extension(),
    {
        match self.file_name() {
            Some(PathPart::Text(s)) => {
                let v = chars_of(s.as_str());
                let mut i: usize = 1;
                while i < v.len()
                    invariant
                        1 <= i,
                        self@.file_name() == Some(PartView::Text(s@)),
                        v@ == s@,
                        v@.len() > 0 ==> i <= v@.len(),
                        forall|j: int| 1 <= j < i && j < v@.len() ==> v@[j] != '.',
                    decreases v.len() - i,
                {
                    if v[i] == '.' {
                        proof {
                            assert(s@.skip(1)[i as int - 1] == '.');
                        }
                        return true;
                    }
                    i = i + 1;
                }
                proof {
                    if s@.len() > 0 && s@.skip(1).contains('.') {
                        let k = choose|k: int| 0 <= k < s@.skip(1).len() && s@.skip(1)[k] == '.';
                        assert(v@[k + 1] == '.');
                    }
                }
                false
            },
            Some(PathPart::Raw(b)) => {
                let mut i: usize = 1;
                while i < b.len()
                    invariant
                        1 <= i,
                        self@.file_name() == Some(PartView::Raw(b@)),
                        b@.len() > 0 ==> i <= b@.len(),
                        forall|j: int| 1 <= j < i && j < b@.len() ==> b@[j] != 0x2e,
                    decreases b.len() - i,
                {
                    if b[i] == 0x2e {
                        proof {
                            assert(b@.skip(1)[i as int - 1] == 0x2e);
                        }
                        return true;
                    }
                    i = i + 1;
                }
                proof {
                    if b@.len() > 0 && b@.skip(1).contains(0x2eu8) {
                        let k = choose|k: int| 0 <= k < b@.skip(1).len() && b@.skip(1)[k] == 0x2e;
                        assert(b@[k + 1] == 0x2e);
                    }
                }
                false
            },
            None => false,
        }
    }
}

/// The text of a path below another one, with `/` between the names on every platform.
pub open spec fn normalized(path: Option<Seq<char>>, windows: bool) -> Seq<char> {
    match path {
        Some(s) => if windows {
            replaced(s, seq!['\\'], seq!['/'])
        } else {
            s
        },
        None => Seq::empty(),
    }
}

/// Normalizes the text of a path; a path that is not text becomes the empty text. `windows` says
/// whether the backslash separates the names of the path.
pub fn normalize_path(path: Option<&str>, windows: bool) -> (r: String)
    ensures
        r@ == normalized(match path {
            Some(s) => Some(s@),
            None => None,
        }, windows),
{
    match path {
        Some(s) => if windows {
            proof {
                reveal_strlit("\\");
                reveal_strlit("/");
                assert("\\"@ =~= seq!['\\']);
                assert("/"@ =~= seq!['/']);
            }
            replace(s, "\\", "/")
        } else {
            String::from_str(s)
        },
        None => String::new(),
    }
}

/// Whether `path` is a temporary file of `file`: a neighbour whose name continues the file's name
/// with `.tmp-`.
pub open spec fn temporary_of(path: FsPathView, file: FsPathView) -> bool {
    match (path.file_name_text(), file.file_name_text()) {
        (Some(name), Some(kept)) => path.parent() == file.parent() && has_prefix(
            name,
            kept + ".tmp-"@,
        ),
        _ => false,
    }
}

/// Whether `path` is a temporary file of `file`.
fn is_temporary_of(path: &FsPath, file: &FsPath) -> (r: bool)
    ensures
        r == temporary_of(path@, file@),
{
    match (path.file_name_text(), file.file_name_text()) {
        (Some(name), Some(kept)) => {
            let mut prefix = String::from_str(kept);
            prefix.append(".tmp-");
            match (path.parent(), file.parent()) {
                (Some(a), Some(b)) => a.same_path(&b) && starts_with(name, prefix.as_str()),
                _ => false,
            }
        },
        _ => false,
    }
}

/// Whether a walk must leave out `path` because of the file `excluded`: it is that file, or one of
/// its temporary files.
pub fn is_excluded_path(path: &FsPath, excluded: &FsPath) -> (r: bool)
    ensures
        r == (path@ == excluded@ || temporary_of(path@, excluded@)),
{
    path.same_path(excluded) || is_temporary_of(path, excluded)
}

/// Whether `path` leads to the file `metadata` or to one of its temporary files. The canonical
/// forms are those of the two paths, where they could be had.
pub open spec fn leads_to_metadata(
    path: FsPathView,
    metadata: FsPathView,
    canonical_path: Option<FsPathView>,
    canonical_metadata: Option<FsPathView>,
) -> bool {
    ||| path == metadata
    ||| canonical_path is Some && canonical_path == canonical_metadata
    ||| temporary_of(path, metadata)
}

/// The view of a path that may be missing.
pub open spec fn optional_path(path: Option<FsPath>) -> Option<FsPathView> {
    match path {
        Some(p) => Some(p@),
        None => None,
    }
}

/// Whether `path` leads to the file `metadata` or to one of its temporary files.
pub fn is_metadata_path(
    path: &FsPath,
    metadata: &FsPath,
    canonical_path: &Option<FsPath>,
    canonical_metadata: &Option<FsPath>,
) -> (r: bool)
    ensures
        r == leads_to_metadata(
            path@,
            metadata@,
            optional_path(*canonical_path),
            optional_path(*canonical_metadata),
        ),
{
    if path.same_path(metadata) {
        return true;
    }
    match (canonical_path, canonical_metadata) {
        (Some(a), Some(b)) => {
            if a.same_path(b) {
                return true;
            }
        },
        _ => {},
    }
    is_temporary_of(path, metadata)
}

} // verus!
