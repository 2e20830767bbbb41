//! The entries of a listing: what is known of each, how they are ordered, and how WebDAV sees them.
use crate::outside::{
    alphanumeric_compare, alphanumeric_order, escape_pcdata, escaped, format_utc, lower_case,
    to_lowercase, utc_text, DAV_DATE_FORMAT,
};
use crate::text::{decimal, decimal_text, ends_with, has_last, lemma_pieces_nonempty, pieces};
use std::cmp::Ordering;
use vstd::prelude::*;
use vstd::string::*;

verus! {

/// What a page shows.
#[derive(Debug, Clone, Copy, PartialEq, Eq, Structural)]
pub enum DataKind {
    Index,
    Edit,
    View,
}

/// What an entry is.
#[derive(Debug, Clone, Copy, PartialEq, Eq, Structural)]
pub enum PathType {
    Dir,
    SymlinkDir,
    File,
    SymlinkFile,
}

/// An entry of a listing.
#[derive(Debug, PartialEq, Eq, PartialOrd)]
pub struct PathItem {
    pub path_type: PathType,
    pub name: String,
    pub mtime: u64,
    pub size: u64,
    pub directory_password: Option<String>,
}

/// The data of a listing's page.
#[derive(Debug)]
pub struct IndexData {
    pub href: String,
    pub kind: DataKind,
    pub uri_prefix: String,
    pub allow_upload: bool,
    pub allow_delete: bool,
    pub allow_search: bool,
    pub allow_archive: bool,
    pub dir_exists: bool,
    pub auth: bool,
    pub user: Option<String>,
    pub directory_auth: bool,
    pub directory_password: Option<String>,
    pub paths: Vec<PathItem>,
}

/// The data of a file's page.
#[derive(Debug)]
pub struct EditData {
    pub href: String,
    pub kind: DataKind,
    pub uri_prefix: String,
    pub allow_upload: bool,
    pub allow_delete: bool,
    pub auth: bool,
    pub user: Option<String>,
    pub editable: bool,
    pub directory_auth: bool,
    pub directory_password: Option<String>,
}

/// The text of a string that may be missing.
pub open spec fn optional_text(s: Option<String>) -> Option<Seq<char>> {
    match s {
        Some(s) => Some(s@),
        None => None,
    }
}

/// What is known of an entry.
pub struct PathItemView {
    pub path_type: PathType,
    pub name: Seq<char>,
    pub mtime: u64,
    pub size: u64,
    pub directory_password: Option<Seq<char>>,
}

impl View for PathItem {
    type V = PathItemView;

    open spec fn view(&self) -> PathItemView {
        PathItemView {
            path_type: self.path_type,
            name: self.name@,
            mtime: self.mtime,
            size: self.size,
            directory_password: optional_text(self.directory_password),
        }
    }
}

/// The views of a list of entries.
pub open spec fn item_views(items: Seq<PathItem>) -> Seq<PathItemView> {
    items.map_values(|i: PathItem| i@)
}

/// Whether an entry of this type is a directory, or a link to one.
pub open spec fn is_dir_type(t: PathType) -> bool {
    t == PathType::Dir || t == PathType::SymlinkDir
}

/// How two types are ordered: directories come before files, links count as what they lead to.
pub open spec fn type_order(a: PathType, b: PathType) -> Ordering {
    if is_dir_type(a) == is_dir_type(b) {
        Ordering::Equal
    } else if is_dir_type(a) {
        Ordering::Less
    } else {
        Ordering::Greater
    }
}

/// How two numbers are ordered.
pub open spec fn number_order(a: u64, b: u64) -> Ordering {
    if a < b {
        Ordering::Less
    } else if a == b {
        Ordering::Equal
    } else {
        Ordering::Greater
    }
}

/// By what a listing is ordered, among directories and among files.
#[derive(Debug, Clone, Copy, PartialEq, Eq, Structural)]
pub enum SortKey {
    Name,
    Mtime,
    Size,
}

/// How two entries of the given types are ordered that are ordered so among their kind.
pub open spec fn typed_order(a: PathType, b: PathType, among: Ordering) -> Ordering {
    match type_order(a, b) {
        Ordering::Equal => among,
        v => v,
    }
}

impl PathItemView {
    /// How two entries are ordered by a key.
    pub open spec fn order(self, other: PathItemView, key: SortKey) -> Ordering {
        typed_order(
            self.path_type,
            other.path_type,
            match key {
                SortKey::Name => alphanumeric_order(lower_case(self.name), lower_case(other.name)),
                SortKey::Mtime => number_order(self.mtime, other.mtime),
                SortKey::Size => number_order(self.size, other.size),
            },
        )
    }
}

/// Whether an entry comes strictly before another one by a key.
pub open spec fn precedes(a: PathItemView, b: PathItemView, key: SortKey) -> bool {
    a.order(b, key) == Ordering::Less
}

impl PathType {
    /// Whether the entry is a directory, or a link to one.
    pub fn is_dir(&self) -> (r: bool)
        ensures
            r == is_dir_type(*self),
    {
        match self {
            PathType::Dir => true,
            PathType::SymlinkDir => true,
            PathType::File => false,
            PathType::SymlinkFile => false,
        }
    }

    /// The order of two types.
    pub fn cmp(&self, other: &PathType) -> (r: Ordering)
        ensures
            r == type_order(*self, *other),
    {
        if self.is_dir() == other.is_dir() {
            Ordering::Equal
        } else if self.is_dir() {
            Ordering::Less
        } else {
            Ordering::Greater
        }
    }

    /// The order of two entries of these types that are ordered so among their kind.
    pub fn types_first(&self, other: &PathType, among: Ordering) -> (r: Ordering)
        ensures
            r == typed_order(*self, *other, among),
    {
        match self.cmp(other) {
            Ordering::Equal => among,
            v => v,
        }
    }
}

impl PartialOrd for PathType {
    fn partial_cmp(&self, other: &PathType) -> (r: Option<Ordering>) {
        Some(self.cmp(other))
    }
}

impl vstd::std_specs::cmp::PartialOrdSpecImpl for PathType {
    open spec fn obeys_partial_cmp_spec() -> bool {
        true
    }

    open spec fn partial_cmp_spec(&self, other: &PathType) -> Option<Ordering> {
        Some(type_order(*self, *other))
    }
}

/// The order of two numbers.
fn compare_numbers(a: u64, b: u64) -> (r: Ordering)
    ensures
        r == number_order(a, b),
{
    if a < b {
        Ordering::Less
    } else if a == b {
        Ordering::Equal
    } else {
        Ordering::Greater
    }
}

/// The number of milliseconds that a signed timestamp holds for an unsigned one.
pub open spec fn signed_millis(mtime: u64) -> int {
    if mtime < 0x8000_0000_0000_0000 {
        mtime as int
    } else {
        mtime - 0x1_0000_0000_0000_0000
    }
}

/// The date of an entry as WebDAV shows it: empty where the time is out of range.
pub open spec fn dav_date(mtime: u64) -> Seq<char> {
    match utc_text(signed_millis(mtime) as i64, DAV_DATE_FORMAT@) {
        Some(text) => text,
        None => Seq::empty(),
    }
}

/// The address of an entry: a directory's ends with a slash.
pub open spec fn dav_href(encoded: Seq<char>, is_dir: bool) -> Seq<char> {
    if is_dir && !has_last(encoded, '/') {
        encoded.push('/')
    } else {
        encoded
    }
}

/// The WebDAV response for an entry whose encoded address and date are given.
pub open spec fn dav_xml_dated(item: PathItemView, encoded: Seq<char>, date: Seq<char>) -> Seq<char> {
    let dir = is_dir_type(item.path_type);
    let head = "<D:response>\n<D:href>"@ + dav_href(encoded, dir)
        + "</D:href>\n<D:propstat>\n<D:prop>\n<D:displayname>"@ + escaped(
        pieces(item.name, '/').last(),
    ) + "</D:displayname>\n"@;
    let length = if dir {
        Seq::empty()
    } else {
        "<D:getcontentlength>"@ + decimal_text(item.size as nat) + "</D:getcontentlength>\n"@
    };
    let kind = if dir {
        "<D:collection/>"@
    } else {
        Seq::empty()
    };
    head + length + "<D:getlastmodified>"@ + date
        + "</D:getlastmodified>\n<D:resourcetype>"@ + kind
        + "</D:resourcetype>\n</D:prop>\n<D:status>HTTP/1.1 200 OK</D:status>\n</D:propstat>\n</D:response>"@
}

/// The WebDAV response for an entry whose encoded address is given.
pub open spec fn dav_xml(item: PathItemView, encoded: Seq<char>) -> Seq<char> {
    dav_xml_dated(item, encoded, dav_date(item.mtime))
}

impl PathItem {
    /// Whether the entry is a directory, or a link to one.
    pub fn is_dir(&self) -> (r: bool)
        ensures
            r == is_dir_type(self.path_type),
    {
        self.path_type == PathType::Dir || self.path_type == PathType::SymlinkDir
    }

    /// The last piece of the entry's name.
    pub fn base_name(&self) -> (r: &str)
        ensures
            r@ == pieces(self.name@, '/').last(),
    {
        let name = self.name.as_str();
        let mut start: usize = 0;
        let mut i: usize = 0;
        let chars = crate::text::chars_of(name);
        assert(pieces(name@.take(0), '/').last() =~= name@.subrange(0, 0));
        while i < chars.len()
            invariant
                start <= i <= chars.len(),
                chars@ == name@,
                pieces(name@.take(i as int), '/').last() == name@.subrange(start as int, i as int),
            decreases chars.len() - i,
        {
            proof {
                assert(name@.take(i as int + 1).drop_last() =~= name@.take(i as int));
                lemma_pieces_nonempty(name@.take(i as int), '/');
            }
            if chars[i] == '/' {
                start = i + 1;
                assert(name@.subrange(start as int, i as int + 1) =~= Seq::<char>::empty());
            } else {
                assert(name@.subrange(start as int, i as int + 1) =~= name@.subrange(
                    start as int,
                    i as int,
                ).push(name@[i as int]));
            }
            i = i + 1;
        }
        assert(name@.take(i as int) =~= name@);
        name.substring_char(start, i)
    }

    /// The order of two entries by name.
    pub fn sort_by_name(&self, other: &PathItem) -> (r: Ordering)
        ensures
            r == self@.order(other@, SortKey::Name),
    {
        let a = to_lowercase(self.name.as_str());
        let b = to_lowercase(other.name.as_str());
        self.path_type.types_first(&other.path_type, alphanumeric_compare(a.as_str(), b.as_str()))
    }

    /// The order of two entries by the time of their last change.
    pub fn sort_by_mtime(&self, other: &PathItem) -> (r: Ordering)
        ensures
            r == self@.order(other@, SortKey::Mtime),
    {
        self.path_type.types_first(&other.path_type, compare_numbers(self.mtime, other.mtime))
    }

    /// The order of two entries by size.
    pub fn sort_by_size(&self, other: &PathItem) -> (r: Ordering)
        ensures
            r == self@.order(other@, SortKey::Size),
    {
        self.path_type.types_first(&other.path_type, compare_numbers(self.size, other.size))
    }

    /// The WebDAV response for the entry, when its encoded address is given.
    pub fn dav_xml_at(&self, encoded: &str) -> (r: String)
        ensures
            r@ == dav_xml(self@, encoded@),
    {
        let millis: i64 = if self.mtime < 0x8000_0000_0000_0000 {
            self.mtime as i64
        } else {
            -((0xffff_ffff_ffff_ffff - self.mtime) as i64) - 1
        };
        let date = match format_utc(millis, DAV_DATE_FORMAT) {
            Some(text) => text,
            None => String::new(),
        };
        assert(date@ =~= dav_date(self.mtime));
        self.dav_xml_dated(encoded, date.as_str())
    }

    /// The WebDAV response for the entry, when its encoded address and its date are given.
    pub fn dav_xml_dated(&self, encoded: &str, date: &str) -> (r: String)
        ensures
            r@ == dav_xml_dated(self@, encoded@, date@),
    {
        let dir = self.is_dir();
        let mut href = String::from_str(encoded);
        if dir && !ends_with(encoded, '/') {
            href.push('/');
        }
        let displayname = escape_pcdata(self.base_name());
        let mut out = String::from_str("<D:response>\n<D:href>");
        out.append(href.as_str());
        out.append("</D:href>\n<D:propstat>\n<D:prop>\n<D:displayname>");
        out.append(displayname.as_str());
        out.append("</D:displayname>\n");
        if !dir {
            let ghost before = out@;
            out.append("<D:getcontentlength>");
            out.append(decimal(self.size).as_str());
            out.append("</D:getcontentlength>\n");
            assert(out@ =~= before + ("<D:getcontentlength>"@ + decimal_text(self.size as nat)
                + "</D:getcontentlength>\n"@));
        } else {
            assert(out@ =~= out@ + Seq::<char>::empty());
        }
        out.append("<D:getlastmodified>");
        out.append(date);
        out.append("</D:getlastmodified>\n<D:resourcetype>");
        if dir {
            out.append("<D:collection/>");
        } else {
            assert(out@ =~= out@ + Seq::<char>::empty());
        }
        out.append(
            "</D:resourcetype>\n</D:prop>\n<D:status>HTTP/1.1 200 OK</D:status>\n</D:propstat>\n</D:response>",
        );
        out
    }

    /// The WebDAV response for the entry below the address `prefix`. `encode_uri` encodes an
    /// address.
    pub fn to_dav_xml<E: Fn(&str) -> String>(&self, prefix: &str, encode_uri: &E) -> (r: String)
        requires
            forall|p: &str| call_requires(encode_uri, (p,)),
        ensures
            exists|p: &str, encoded: String|
                p@ == prefix@ + self.name@ && #[trigger] call_ensures(encode_uri, (p,), encoded)
                    && r@ == dav_xml(self@, encoded@),
    {
        let mut address = String::from_str(prefix);
        address.append(self.name.as_str());
        let encoded = encode_uri(address.as_str());
        self.dav_xml_at(encoded.as_str())
    }

    /// Whether the entry comes strictly before another one by a key.
    pub fn is_before(&self, other: &PathItem, key: SortKey) -> (r: bool)
        ensures
            r == precedes(self@, other@, key),
    {
        match self.compare(other, key) {
            Ordering::Less => true,
            _ => false,
        }
    }

    /// A copy of the entry.
    pub fn copy(&self) -> (r: PathItem)
        ensures
            r@ == self@,
    {
        PathItem {
            path_type: self.path_type,
            name: self.name.clone(),
            mtime: self.mtime,
            size: self.size,
            directory_password: match &self.directory_password {
                Some(p) => Some(p.clone()),
                None => None,
            },
        }
    }

    /// The order of two entries by a key.
    pub fn compare(&self, other: &PathItem, key: SortKey) -> (r: Ordering)
        ensures
            r == self@.order(other@, key),
    {
        match key {
            SortKey::Name => self.sort_by_name(other),
            SortKey::Mtime => self.sort_by_mtime(other),
            SortKey::Size => self.sort_by_size(other),
        }
    }
}

} // verus!
