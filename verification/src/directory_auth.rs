//! Passwords for directories: each directory of the tree has one of its own, which opens the
//! directory and what lies below it for reading.
use crate::outside::{is_lower_hex, is_simple_id, random_simple_id};
use crate::paths::{FsPath, FsPathView, PartView, PathPart};
use crate::string_map::{distinct_keys, lemma_pairs_map_value, pairs_map, StringMap};
use crate::text::{
    chars_of, decimal, decimal_text, has_prefix, joined, pieces, same, split, starts_with, texts,
};
use vstd::prelude::*;
use vstd::string::*;
use vstd::utf8::*;

verus! {

/// The query parameter that carries a directory's password.
pub const DIRECTORY_PASSWORD_QUERY: &'static str = "dir_password";

/// The version of the store that this library reads and writes.
pub const STORE_VERSION: u8 = 1;

/// The fewest bytes that a password may have.
pub const MIN_PASSWORD_LEN: usize = 8;

/// The most bytes that a password may have.
pub const MAX_PASSWORD_LEN: usize = 128;

/// Why the store refuses a request.
#[derive(Debug, Clone, Copy, PartialEq, Eq, Structural)]
pub enum AuthError {
    /// The store was written in another version.
    UnsupportedVersion(u8),
    /// The path is not a clean relative path.
    InvalidPath,
    /// The password is too short or too long.
    PasswordLength,
    /// The password holds a control character.
    PasswordControl,
    /// The store's own file has no directory.
    InvalidFile,
}

/// The message of an error.
pub open spec fn error_text(e: AuthError) -> Seq<char> {
    match e {
        AuthError::UnsupportedVersion(v) => "Unsupported directory auth file version "@
            + decimal_text(v as nat),
        AuthError::InvalidPath => "Invalid directory auth path"@,
        AuthError::PasswordLength => "Directory password must contain between 8 and 128 bytes"@,
        AuthError::PasswordControl => "Directory password cannot contain control characters"@,
        AuthError::InvalidFile => "Invalid directory auth file path"@,
    }
}

impl AuthError {
    /// The message of the error.
    pub fn message(&self) -> (r: String)
        ensures
            r@ == error_text(*self),
    {
        match self {
            AuthError::UnsupportedVersion(v) => {
                let mut out = String::from_str("Unsupported directory auth file version ");
                out.append(decimal(*v as u64).as_str());
                out
            },
            AuthError::InvalidPath => String::from_str("Invalid directory auth path"),
            AuthError::PasswordLength => String::from_str(
                "Directory password must contain between 8 and 128 bytes",
            ),
            AuthError::PasswordControl => String::from_str(
                "Directory password cannot contain control characters",
            ),
            AuthError::InvalidFile => String::from_str("Invalid directory auth file path"),
        }
    }
}

/// Whether a text is a clean relative path: names separated by single slashes, none of them empty,
/// `.` or `..`.
pub open spec fn valid_path(path: Seq<char>) -> bool {
    forall|i: int| 0 <= i < pieces(path, '/').len() ==> clean_name(#[trigger] pieces(path, '/')[i])
}

/// Whether a name may stand in a clean path.
pub open spec fn clean_name(name: Seq<char>) -> bool {
    name.len() > 0 && name != seq!['.'] && name != seq!['.', '.']
}

/// Whether a character is a control character.
pub open spec fn is_control(c: char) -> bool {
    c <= '\u{1f}' || '\u{7f}' <= c <= '\u{9f}'
}

/// What is wrong with a password: its length in bytes, or a control character.
pub open spec fn password_fault(password: Seq<char>) -> Option<AuthError> {
    if !(MIN_PASSWORD_LEN <= encode_utf8(password).len() <= MAX_PASSWORD_LEN) {
        Some(AuthError::PasswordLength)
    } else if exists|i: int| 0 <= i < password.len() && is_control(#[trigger] password[i]) {
        Some(AuthError::PasswordControl)
    } else {
        None
    }
}

/// Refuses a path that is not clean.
pub fn validate_directory_path(path: &str) -> (r: Result<(), AuthError>)
    ensures
        r is Ok <==> valid_path(path@),
        r is Err ==> r->Err_0 == AuthError::InvalidPath,
{
    let names = split(path, '/');
    proof {
        reveal_strlit(".");
        reveal_strlit("..");
        assert("."@ =~= seq!['.']);
        assert(".."@ =~= seq!['.', '.']);
        assert(texts(names@).len() == names@.len());
    }
    let mut i: usize = 0;
    while i < names.len()
        invariant
            i <= names.len(),
            names@.len() == pieces(path@, '/').len(),
            texts(names@) == pieces(path@, '/'),
            "."@ == seq!['.'],
            ".."@ == seq!['.', '.'],
            forall|j: int| 0 <= j < i ==> clean_name(#[trigger] pieces(path@, '/')[j]),
        decreases names.len() - i,
    {
        let name = names[i].as_str();
        assert(texts(names@)[i as int] == name@);
        if name.is_empty() || same(name, ".") || same(name, "..") {
            assert(!clean_name(pieces(path@, '/')[i as int]));
            return Err(AuthError::InvalidPath);
        }
        i = i + 1;
    }
    Ok(())
}

/// Refuses a password of the wrong length or with a control character.
pub fn validate_password(password: &str) -> (r: Result<(), AuthError>)
    ensures
        match r {
            Ok(_) => password_fault(password@) is None,
            Err(e) => password_fault(password@) == Some(e),
        },
{
    let len = password.as_bytes().len();
    if !(MIN_PASSWORD_LEN <= len && len <= MAX_PASSWORD_LEN) {
        return Err(AuthError::PasswordLength);
    }
    let chars = chars_of(password);
    let mut i: usize = 0;
    while i < chars.len()
        invariant
            i <= chars.len(),
            chars@ == password@,
            MIN_PASSWORD_LEN <= encode_utf8(password@).len() <= MAX_PASSWORD_LEN,
            forall|j: int| 0 <= j < i ==> !is_control(#[trigger] password@[j]),
        decreases chars.len() - i,
    {
        let c: char = chars[i];
        if c <= '\u{1f}' || ('\u{7f}' <= c && c <= '\u{9f}') {
            assert(is_control(password@[i as int]));
            return Err(AuthError::PasswordControl);
        }
        i = i + 1;
    }
    Ok(())
}

/// A fresh identifier satisfies the rules of passwords.
proof fn lemma_fresh_password_valid(id: Seq<char>)
    requires
        is_simple_id(id),
    ensures
        password_fault(id) is None,
{
    assert(is_ascii_chars(id)) by {
        assert forall|i: int| 0 <= i < id.len() implies '\0' <= #[trigger] id[i] <= '\x7f' by {
            assert(is_lower_hex(id[i]));
        }
    }
    is_ascii_chars_encode_utf8(id);
    assert forall|i: int| 0 <= i < id.len() implies !is_control(#[trigger] id[i]) by {
        assert(is_lower_hex(id[i]));
    }
}

/// Whether `path` is the directory `root` or lies below it.
pub open spec fn in_tree(path: Seq<char>, root: Seq<char>) -> bool {
    path == root || has_prefix(path, root.push('/'))
}

/// Whether `path` is the directory `root` or lies below it.
pub fn is_in_tree(path: &str, root: &str) -> (r: bool)
    ensures
        r == in_tree(path@, root@),
{
    let mut prefix = String::from_str(root);
    prefix.push('/');
    same(path, root) || starts_with(path, prefix.as_str())
}

/// Compares a password with the one that is expected, without stopping at the first difference.
pub fn password_matches(expected: &str, candidate: Option<&String>) -> (r: bool)
    ensures
        r == (candidate is Some && candidate->0@ == expected@),
{
    let candidate = match candidate {
        Some(c) => c,
        None => {
            return false;
        },
    };
    let left_bytes = expected.as_bytes();
    let right_bytes = candidate.as_str().as_bytes();
    proof {
        encode_utf8_decode_utf8(expected@);
        encode_utf8_decode_utf8(candidate@);
    }
    let n = left_bytes.len();
    let m = right_bytes.len();
    let mut difference: usize = n ^ m;
    assert((n ^ m) == 0 <==> n == m) by (bit_vector);
    let max_len: usize = if n > m {
        n
    } else {
        m
    };
    let mut index: usize = 0;
    while index < max_len
        invariant
            index <= max_len,
            n == left_bytes@.len(),
            m == right_bytes@.len(),
            max_len == if n > m { n } else { m },
            difference == 0 <==> n == m && (forall|j: int|
                0 <= j < index && j < n ==> left_bytes@[j] == right_bytes@[j]),
        decreases max_len - index,
    {
        let left: u8 = if index < n {
            left_bytes[index]
        } else {
            0
        };
        let right: u8 = if index < m {
            right_bytes[index]
        } else {
            0
        };
        let delta: usize = (left ^ right) as usize;
        let before = difference;
        assert((left ^ right) == 0 <==> left == right) by (bit_vector);
        assert((before | delta) == 0 <==> before == 0 && delta == 0) by (bit_vector);
        difference = difference | delta;
        index = index + 1;
    }
    proof {
        if difference == 0 {
            assert(left_bytes@ =~= right_bytes@);
        }
    }
    difference == 0
}

/// The directories and their passwords, as the store keeps them.
#[derive(Debug)]
pub struct DirectorySecrets {
    pub version: u8,
    pub directories: Vec<(String, String)>,
}

/// The passwords of the directories below a root, and the file that stores them.
#[derive(Debug)]
pub struct DirectoryAuth {
    root: FsPath,
    file: FsPath,
    directories: StringMap,
}

/// What the password store holds.
pub struct DirectoryAuthView {
    pub root: FsPathView,
    pub file: FsPathView,
    pub directories: Map<Seq<char>, Seq<char>>,
}

impl View for DirectoryAuth {
    type V = DirectoryAuthView;

    closed spec fn view(&self) -> DirectoryAuthView {
        DirectoryAuthView {
            root: self.root@,
            file: self.file@,
            directories: self.directories@,
        }
    }
}

/// Whether every password of a map satisfies the rules of passwords.
pub open spec fn all_valid(directories: Map<Seq<char>, Seq<char>>) -> bool {
    forall|k: Seq<char>|
        directories.contains_key(k) ==> password_fault(#[trigger] directories[k]) is None
}

/// What is wrong with an entry of the store: its path, or its password.
pub open spec fn entry_fault(path: Seq<char>, password: Seq<char>) -> Option<AuthError> {
    if !valid_path(path) {
        Some(AuthError::InvalidPath)
    } else {
        password_fault(password)
    }
}

/// What is wrong with a list of entries: what is wrong with the first faulty one.
pub open spec fn entries_fault(entries: Seq<(Seq<char>, Seq<char>)>) -> Option<AuthError>
    decreases entries.len(),
{
    if entries.len() == 0 {
        None
    } else {
        match entries_fault(entries.drop_last()) {
            Some(e) => Some(e),
            None => entry_fault(entries.last().0, entries.last().1),
        }
    }
}

/// A list without a faulty entry gives a map whose passwords all satisfy the rules.
proof fn lemma_entries_valid(entries: Seq<(Seq<char>, Seq<char>)>)
    requires
        entries_fault(entries) is None,
    ensures
        all_valid(pairs_map(entries)),
    decreases entries.len(),
{
    if entries.len() > 0 {
        lemma_entries_valid(entries.drop_last());
        let front = pairs_map(entries.drop_last());
        assert forall|k: Seq<char>| pairs_map(entries).contains_key(k) implies password_fault(
            #[trigger] pairs_map(entries)[k],
        ) is None by {
            if k != entries.last().0 {
                assert(password_fault(front[k]) is None);
            }
        }
    }
}

/// The map without a directory and what lies below it.
pub open spec fn without_tree(
    directories: Map<Seq<char>, Seq<char>>,
    root: Seq<char>,
) -> Map<Seq<char>, Seq<char>> {
    Map::new(
        |k: Seq<char>| directories.contains_key(k) && !in_tree(k, root),
        |k: Seq<char>| directories[k],
    )
}

/// The map after `source` has become `destination`: what was at or below the source is now at the
/// same place at or below the destination, and what was at or below the destination is gone.
pub open spec fn with_tree_moved(
    directories: Map<Seq<char>, Seq<char>>,
    source: Seq<char>,
    destination: Seq<char>,
) -> Map<Seq<char>, Seq<char>> {
    Map::new(
        |k: Seq<char>|
            if in_tree(k, destination) {
                directories.contains_key(source + k.skip(destination.len() as int))
            } else {
                directories.contains_key(k) && !in_tree(k, source)
            },
        |k: Seq<char>|
            if in_tree(k, destination) {
                directories[source + k.skip(destination.len() as int)]
            } else {
                directories[k]
            },
    )
}

/// The names that a relative path consists of.
pub open spec fn path_names(path: Seq<char>) -> Seq<Seq<char>> {
    nonempty(pieces(path, '/'))
}

/// The texts of a list that are not empty.
pub open spec fn nonempty(names: Seq<Seq<char>>) -> Seq<Seq<char>>
    decreases names.len(),
{
    if names.len() == 0 {
        Seq::empty()
    } else if names.last().len() == 0 {
        nonempty(names.drop_last())
    } else {
        nonempty(names.drop_last()).push(names.last())
    }
}

/// The names that a relative path consists of.
pub fn names_of(path: &str) -> (r: Vec<String>)
    ensures
        texts(r@) == path_names(path@),
{
    let all = split(path, '/');
    let mut out: Vec<String> = Vec::new();
    let mut i: usize = 0;
    assert(texts(out@) =~= nonempty(texts(all@).take(0)));
    while i < all.len()
        invariant
            i <= all.len(),
            texts(out@) == nonempty(texts(all@).take(i as int)),
        decreases all.len() - i,
    {
        let ghost taken = texts(all@).take(i as int + 1);
        let ghost before = texts(out@);
        proof {
            assert(taken.drop_last() =~= texts(all@).take(i as int));
            assert(taken.last() == all@[i as int]@);
        }
        if !all[i].as_str().is_empty() {
            out.push(all[i].clone());
            assert(texts(out@) =~= before.push(taken.last()));
        }
        i = i + 1;
    }
    assert(texts(all@).take(i as int) =~= texts(all@));
    out
}

/// The directories on the way to a relative path, from the top one to the path itself.
pub open spec fn chain(path: Seq<char>) -> Seq<Seq<char>> {
    Seq::new(
        path_names(path).len(),
        |i: int| joined(path_names(path).take(i + 1), '/'),
    )
}

/// The directories on the way to a relative path, from the top one to the path itself.
pub fn directory_chain(path: &str) -> (r: Vec<String>)
    ensures
        texts(r@) == chain(path@),
{
    let names = names_of(path);
    let mut out: Vec<String> = Vec::new();
    let mut current = String::new();
    let mut i: usize = 0;
    while i < names.len()
        invariant
            i <= names.len(),
            texts(names@) == path_names(path@),
            out@.len() == i,
            current@ == joined(path_names(path@).take(i as int), '/'),
            forall|j: int| 0 <= j < i ==> (#[trigger] out@[j])@ == chain(path@)[j],
        decreases names.len() - i,
    {
        let ghost taken = path_names(path@).take(i as int + 1);
        let ghost before = current@;
        proof {
            assert(taken.drop_last() =~= path_names(path@).take(i as int));
            assert(taken.last() == texts(names@)[i as int]);
        }
        if i > 0 {
            current.push('/');
        }
        current.append(names[i].as_str());
        proof {
            if i == 0 {
                assert(current@ =~= taken[0]);
            }
            assert(current@ == joined(taken, '/'));
        }
        out.push(current.clone());
        i = i + 1;
    }
    proof {
        assert(texts(names@).len() == names@.len());
        assert(texts(out@) =~= chain(path@));
    }
    out
}

/// Whether the entry of `k` in a map after some directories were given passwords is the one it had,
/// or a fresh one.
pub open spec fn kept_or_fresh(
    before: Map<Seq<char>, Seq<char>>,
    after: Map<Seq<char>, Seq<char>>,
    k: Seq<char>,
) -> bool {
    after.contains_key(k) && if before.contains_key(k) {
        after[k] == before[k]
    } else {
        is_simple_id(after[k])
    }
}

/// Whether each directory on the way to a path, where `present` says that it is there, has got a
/// password if it had none, and nothing else has changed.
pub open spec fn tree_ensured(
    before: DirectoryAuthView,
    after: DirectoryAuthView,
    path: Seq<char>,
    present: Seq<bool>,
) -> bool {
    &&& after.root == before.root
    &&& after.file == before.file
    &&& forall|k: Seq<char>|
        #[trigger] after.directories.contains_key(k) <==> before.directories.contains_key(k)
            || on_chain(path, present, k)
    &&& forall|k: Seq<char>|
        after.directories.contains_key(k) ==> #[trigger] kept_or_fresh(
            before.directories,
            after.directories,
            k,
        )
}

/// What taking up stored passwords gives.
pub open spec fn loaded(root: FsPathView, file: FsPathView, stored: Option<DirectorySecrets>) -> Result<
    DirectoryAuthView,
    AuthError,
> {
    match stored {
        None => Ok(DirectoryAuthView { root, file, directories: Map::empty() }),
        Some(secrets) => {
            let entries = crate::string_map::pair_texts(secrets.directories@);
            if secrets.version != STORE_VERSION {
                Err(AuthError::UnsupportedVersion(secrets.version))
            } else {
                match entries_fault(entries) {
                    Some(e) => Err(e),
                    None => Ok(DirectoryAuthView { root, file, directories: pairs_map(entries) }),
                }
            }
        },
    }
}

impl DirectoryAuth {
    #[verifier::type_invariant]
    spec fn valid_passwords(&self) -> bool {
        all_valid(self.directories@)
    }

    /// Takes up the stored passwords, or starts without any where nothing is stored yet.
    pub fn load(root: FsPath, file: FsPath, stored: Option<DirectorySecrets>) -> (r: Result<
        DirectoryAuth,
        AuthError,
    >)
        ensures
            match r {
                Ok(auth) => loaded(root@, file@, stored) == Ok::<DirectoryAuthView, AuthError>(auth@),
                Err(e) => loaded(root@, file@, stored) == Err::<DirectoryAuthView, AuthError>(e),
            },
    {
        let secrets = match stored {
            Some(secrets) => secrets,
            None => {
                return Ok(DirectoryAuth { root, file, directories: StringMap::new() });
            },
        };
        if secrets.version != STORE_VERSION {
            return Err(AuthError::UnsupportedVersion(secrets.version));
        }
        let ghost entries = crate::string_map::pair_texts(secrets.directories@);
        let mut i: usize = 0;
        while i < secrets.directories.len()
            invariant
                i <= secrets.directories.len(),
                secrets.version == STORE_VERSION,
                stored == Some(secrets),
                entries == crate::string_map::pair_texts(secrets.directories@),
                entries_fault(entries.take(i as int)) is None,
            decreases secrets.directories.len() - i,
        {
            proof {
                assert(entries.take(i as int + 1).drop_last() =~= entries.take(i as int));
                assert(entries[i as int] == (
                    secrets.directories@[i as int].0@,
                    secrets.directories@[i as int].1@,
                ));
            }
            let fault: Option<AuthError> = match validate_directory_path(
                secrets.directories[i].0.as_str(),
            ) {
                Err(e) => Some(e),
                Ok(_) => match validate_password(secrets.directories[i].1.as_str()) {
                    Err(e) => Some(e),
                    Ok(_) => None,
                },
            };
            assert(fault == entries_fault(entries.take(i as int + 1)));
            match fault {
                Some(e) => {
                    proof {
                        lemma_first_fault(entries, i as int + 1);
                    }
                    return Err(e);
                },
                None => {},
            }
            i = i + 1;
        }
        proof {
            assert(entries.take(i as int) =~= entries);
            lemma_entries_valid(entries);
        }
        Ok(DirectoryAuth { root, file, directories: StringMap::from_pairs(secrets.directories) })
    }

    /// The file that stores the passwords.
    pub fn metadata_path(&self) -> (r: &FsPath)
        ensures
            r@ == self@.file,
    {
        &self.file
    }

    /// The directory whose descendants have passwords.
    pub fn root(&self) -> (r: &FsPath)
        ensures
            r@ == self@.root,
    {
        &self.root
    }

    /// The directories and passwords to store.
    pub fn secrets(&self) -> (r: DirectorySecrets)
        ensures
            r.version == STORE_VERSION,
            pairs_map(crate::string_map::pair_texts(r.directories@)) == self@.directories,
            distinct_keys(crate::string_map::pair_texts(r.directories@)),
    {
        let mut out: Vec<(String, String)> = Vec::new();
        let n = self.directories.len();
        let ghost pairs = self.directories.pairs();
        let mut i: usize = 0;
        while i < n
            invariant
                i <= n,
                n == pairs.len(),
                pairs == self.directories.pairs(),
                crate::string_map::pair_texts(out@) == pairs.take(i as int),
            decreases n - i,
        {
            let (k, v) = self.directories.entry(i);
            let ghost before = crate::string_map::pair_texts(out@);
            out.push((String::from_str(k), String::from_str(v)));
            i = i + 1;
            proof {
                assert(crate::string_map::pair_texts(out@) =~= before.push(pairs[i as int - 1]));
                assert(pairs.take(i as int) =~= before.push(pairs[i as int - 1]));
            }
        }
        assert(pairs.take(i as int) =~= pairs);
        DirectorySecrets { version: STORE_VERSION, directories: out }
    }

    /// The password that a directory has been given.
    pub fn registered_password(&self, relative_path: &str) -> (r: Option<String>)
        ensures
            r is Some <==> self@.directories.contains_key(relative_path@),
            r is Some ==> r->0@ == self@.directories[relative_path@],
            r is Some ==> password_fault(r->0@) is None,
    {
        proof {
            use_type_invariant(self);
        }
        match self.directories.get(relative_path) {
            Some(p) => Some(String::from_str(p)),
            None => None,
        }
    }

    /// Replaces the map of directories.
    fn replace_directories(&mut self, directories: StringMap)
        requires
            all_valid(directories@),
        ensures
            final(self)@ == (DirectoryAuthView { directories: directories@, ..old(self)@ }),
    {
        self.directories = directories;
    }

    /// The password of a directory, which is given the password `fresh` if it has none yet; also
    /// whether it was given one now, so that the store is to be written.
    pub fn password_or(&mut self, relative_path: &str, fresh: String) -> (r: Result<
        (String, bool),
        AuthError,
    >)
        requires
            password_fault(fresh@) is None,
        ensures
            r is Err <==> !valid_path(relative_path@),
            r is Err ==> r->Err_0 == AuthError::InvalidPath && final(self)@ == old(self)@,
            r is Ok ==> r->Ok_0.1 == !old(self)@.directories.contains_key(relative_path@),
            r is Ok ==> password_fault(r->Ok_0.0@) is None,
            r is Ok && !r->Ok_0.1 ==> {
                &&& r->Ok_0.0@ == old(self)@.directories[relative_path@]
                &&& final(self)@ == old(self)@
            },
            r is Ok && r->Ok_0.1 ==> {
                &&& r->Ok_0.0@ == fresh@
                &&& final(self)@ == (DirectoryAuthView {
                    directories: old(self)@.directories.insert(relative_path@, fresh@),
                    ..old(self)@
                })
            },
    {
        proof {
            use_type_invariant(&*self);
        }
        match validate_directory_path(relative_path) {
            Err(e) => {
                return Err(e);
            },
            Ok(_) => {},
        }
        match self.directories.get(relative_path) {
            Some(p) => {
                return Ok((String::from_str(p), false));
            },
            None => {},
        }
        let password = fresh.clone();
        self.put(relative_path, fresh);
        Ok((password, true))
    }

    /// Sets the password of a directory.
    fn put(&mut self, relative_path: &str, password: String)
        requires
            password_fault(password@) is None,
        ensures
            final(self)@ == (DirectoryAuthView {
                directories: old(self)@.directories.insert(relative_path@, password@),
                ..old(self)@
            }),
    {
        proof {
            use_type_invariant(&*self);
        }
        let ghost before = self.directories@;
        let mut directories = StringMap::new();
        std::mem::swap(&mut directories, &mut self.directories);
        directories.insert(String::from_str(relative_path), password);
        proof {
            assert(all_valid(directories@)) by {
                assert forall|k: Seq<char>| directories@.contains_key(k) implies password_fault(
                    #[trigger] directories@[k],
                ) is None by {
                    if k != relative_path@ {
                        assert(password_fault(before[k]) is None);
                    }
                }
            }
        }
        self.directories = directories;
    }

    /// The password of a directory, which is given a random one if it has none yet; also whether it
    /// was given one now, so that the store is to be written.
    pub fn password_for_directory(&mut self, relative_path: &str) -> (r: Result<
        (String, bool),
        AuthError,
    >)
        ensures
            r is Err <==> !valid_path(relative_path@),
            r is Err ==> r->Err_0 == AuthError::InvalidPath && final(self)@ == old(self)@,
            r is Ok ==> r->Ok_0.1 == !old(self)@.directories.contains_key(relative_path@),
            r is Ok ==> password_fault(r->Ok_0.0@) is None,
            r is Ok && !r->Ok_0.1 ==> {
                &&& r->Ok_0.0@ == old(self)@.directories[relative_path@]
                &&& final(self)@ == old(self)@
            },
            r is Ok && r->Ok_0.1 ==> {
                &&& is_simple_id(r->Ok_0.0@)
                &&& final(self)@ == (DirectoryAuthView {
                    directories: old(self)@.directories.insert(relative_path@, r->Ok_0.0@),
                    ..old(self)@
                })
            },
    {
        let fresh = random_simple_id();
        proof {
            lemma_fresh_password_valid(fresh@);
        }
        self.password_or(relative_path, fresh)
    }

    /// The directory that protects a target and its password, where one does; also whether the
    /// directory was given its password now. `directory` is what the search for the protecting
    /// directory found.
    pub fn grant_for_target(&mut self, directory: Option<String>) -> (r: Result<
        (Option<(String, String)>, bool),
        AuthError,
    >)
        ensures
            match directory {
                None => {
                    &&& r == Ok::<(Option<(String, String)>, bool), AuthError>((None, false))
                    &&& final(self)@ == old(self)@
                },
                Some(d) => {
                    &&& r is Err <==> !valid_path(d@)
                    &&& r is Err ==> r->Err_0 == AuthError::InvalidPath && final(self)@ == old(self)@
                    &&& r matches Ok((granted, changed)) ==> {
                        &&& granted matches Some((opened, password))
                        &&& opened@ == d@
                        &&& changed == !old(self)@.directories.contains_key(d@)
                        &&& kept_or_fresh(old(self)@.directories, final(self)@.directories, d@)
                        &&& final(self)@ == (DirectoryAuthView {
                            directories: old(self)@.directories.insert(d@, password@),
                            ..old(self)@
                        })
                    }
                },
            },
    {
        let d = match directory {
            Some(d) => d,
            None => {
                return Ok((None, false));
            },
        };
        let ghost before = self@;
        match self.password_for_directory(d.as_str()) {
            Err(e) => Err(e),
            Ok((password, changed)) => {
                proof {
                    assert(self@.directories =~= before.directories.insert(d@, password@));
                }
                Ok((Some((d, password)), changed))
            },
        }
    }

    /// The password of the directory that protects a target, where one does; also whether the
    /// directory was given it now.
    pub fn password_for_target(&mut self, directory: Option<String>) -> (r: Result<
        (Option<String>, bool),
        AuthError,
    >)
        ensures
            match directory {
                None => {
                    &&& r == Ok::<(Option<String>, bool), AuthError>((None, false))
                    &&& final(self)@ == old(self)@
                },
                Some(d) => {
                    &&& r is Err <==> !valid_path(d@)
                    &&& r is Err ==> r->Err_0 == AuthError::InvalidPath && final(self)@ == old(self)@
                    &&& r matches Ok((granted, changed)) ==> {
                        &&& granted matches Some(password)
                        &&& changed == !old(self)@.directories.contains_key(d@)
                        &&& kept_or_fresh(old(self)@.directories, final(self)@.directories, d@)
                        &&& final(self)@ == (DirectoryAuthView {
                            directories: old(self)@.directories.insert(d@, password@),
                            ..old(self)@
                        })
                    }
                },
            },
    {
        match self.grant_for_target(directory) {
            Err(e) => Err(e),
            Ok((None, changed)) => Ok((None, changed)),
            Ok((Some((_, password)), changed)) => Ok((Some(password), changed)),
        }
    }

    /// Gives a random password to each directory on the way to a path that has none yet. `present`
    /// says for each place on the way whether a directory is there. The result says whether a
    /// password was given, so that the store is to be written.
    pub fn ensure_directory_tree(&mut self, relative_path: &str, present: &Vec<bool>) -> (r: bool)
        requires
            present@.len() == chain(relative_path@).len(),
        ensures
            tree_ensured(old(self)@, final(self)@, relative_path@, present@),
            r <==> exists|k: Seq<char>|
                #[trigger] on_chain(relative_path@, present@, k) && !old(
                    self,
                )@.directories.contains_key(k),
    {
        let names = directory_chain(relative_path);
        let ghost start = self@;
        let mut changed = false;
        let mut i: usize = 0;
        while i < names.len()
            invariant
                i <= names.len(),
                present@.len() == names@.len(),
                names@.len() == chain(relative_path@).len(),
                texts(names@) == chain(relative_path@),
                self@.root == start.root,
                self@.file == start.file,
                forall|k: Seq<char>|
                    #[trigger] self@.directories.contains_key(k) <==> start.directories.contains_key(
                        k,
                    ) || on_chain_before(relative_path@, present@, k, i as int),
                forall|k: Seq<char>|
                    self@.directories.contains_key(k) ==> #[trigger] kept_or_fresh(
                        start.directories,
                        self@.directories,
                        k,
                    ),
                changed <==> exists|k: Seq<char>|
                    #[trigger] on_chain_before(relative_path@, present@, k, i as int)
                        && !start.directories.contains_key(k),
            decreases names.len() - i,
        {
            let ghost before = self@.directories;
            let ghost name = names@[i as int]@;
            proof {
                assert(texts(names@)[i as int] == name);
                assert forall|k: Seq<char>| #[trigger]
                    on_chain_before(relative_path@, present@, k, i as int + 1) <==> (
                    on_chain_before(relative_path@, present@, k, i as int) || (present@[i as int]
                        && k == name)) by {
                    lemma_on_chain_step(relative_path@, present@, k, i as int);
                }
            }
            if present[i] && !self.directories.contains_key(names[i].as_str()) {
                let fresh = random_simple_id();
                proof {
                    lemma_fresh_password_valid(fresh@);
                }
                self.put(names[i].as_str(), fresh);
                proof {
                    assert forall|k: Seq<char>| self@.directories.contains_key(k) implies
                        #[trigger] kept_or_fresh(start.directories, self@.directories, k) by {
                        if k != name {
                            assert(kept_or_fresh(start.directories, before, k));
                        } else {
                            assert(!before.contains_key(k));
                            assert(!start.directories.contains_key(k));
                        }
                    }
                    assert(on_chain_before(relative_path@, present@, name, i as int + 1));
                }
                changed = true;
            } else {
                proof {
                    if present@[i as int] {
                        assert(before.contains_key(name));
                    }
                    if changed {
                        let k = choose|k: Seq<char>| #[trigger]
                            on_chain_before(relative_path@, present@, k, i as int)
                                && !start.directories.contains_key(k);
                        assert(on_chain_before(relative_path@, present@, k, i as int + 1));
                    }
                    if exists|k: Seq<char>| #[trigger]
                        on_chain_before(relative_path@, present@, k, i as int + 1)
                            && !start.directories.contains_key(k) {
                        let k = choose|k: Seq<char>| #[trigger]
                            on_chain_before(relative_path@, present@, k, i as int + 1)
                                && !start.directories.contains_key(k);
                        assert(on_chain_before(relative_path@, present@, k, i as int)) by {
                            if present@[i as int] && k == name {
                                assert(before.contains_key(k));
                            }
                        }
                    }
                }
            }
            i = i + 1;
        }
        proof {
            assert forall|k: Seq<char>| #[trigger]
                on_chain(relative_path@, present@, k) <==> on_chain_before(
                relative_path@,
                present@,
                k,
                i as int,
            ) by {}
            if changed {
                let k = choose|k: Seq<char>| #[trigger]
                    on_chain_before(relative_path@, present@, k, i as int)
                        && !start.directories.contains_key(k);
                assert(on_chain(relative_path@, present@, k));
            }
        }
        changed
    }

    /// Sets the password of a directory. After success the store is to be written.
    pub fn set_password(&mut self, relative_path: &str, password: &str) -> (r: Result<
        (),
        AuthError,
    >)
        ensures
            match entry_fault(relative_path@, password@) {
                Some(e) => r == Err::<(), AuthError>(e) && final(self)@ == old(self)@,
                None => r is Ok && final(self)@ == (DirectoryAuthView {
                    directories: old(self)@.directories.insert(relative_path@, password@),
                    ..old(self)@
                }),
            },
    {
        match validate_directory_path(relative_path) {
            Err(e) => {
                return Err(e);
            },
            Ok(_) => {},
        }
        match validate_password(password) {
            Err(e) => {
                return Err(e);
            },
            Ok(_) => {},
        }
        self.put(relative_path, String::from_str(password));
        Ok(())
    }

    /// Forgets the passwords of a directory and of what lies below it. The result says whether
    /// there were any, so that the store is to be written.
    pub fn remove_tree(&mut self, relative_path: &str) -> (r: Result<bool, AuthError>)
        ensures
            r is Err <==> !valid_path(relative_path@),
            r is Err ==> r->Err_0 == AuthError::InvalidPath && final(self)@ == old(self)@,
            r is Ok ==> final(self)@ == (DirectoryAuthView {
                directories: without_tree(old(self)@.directories, relative_path@),
                ..old(self)@
            }),
            r is Ok ==> (r->Ok_0 <==> exists|k: Seq<char>|
                old(self)@.directories.contains_key(k) && #[trigger] in_tree(k, relative_path@)),
    {
        match validate_directory_path(relative_path) {
            Err(e) => {
                return Err(e);
            },
            Ok(_) => {},
        }
        proof {
            use_type_invariant(&*self);
        }
        let ghost all = self.directories@;
        let (kept, removed) = self.keep_outside(relative_path, None);
        proof {
            assert(kept@ =~= without_tree(all, relative_path@));
        }
        self.replace_directories(kept);
        Ok(removed)
    }

    /// The entries that lie neither in one tree nor in another, and whether any lies in the first.
    fn keep_outside(&self, first: &str, second: Option<&str>) -> (r: (StringMap, bool))
        ensures
            forall|k: Seq<char>|
                #[trigger] r.0@.contains_key(k) <==> self@.directories.contains_key(k) && !in_tree(
                    k,
                    first@,
                ) && !(second is Some && in_tree(k, second->0@)),
            forall|k: Seq<char>| r.0@.contains_key(k) ==> #[trigger] r.0@[k] == self@.directories[k],
            r.1 <==> exists|k: Seq<char>|
                self@.directories.contains_key(k) && #[trigger] in_tree(k, first@),
            all_valid(r.0@),
    {
        proof {
            use_type_invariant(self);
        }
        let n = self.directories.len();
        let ghost pairs = self.directories.pairs();
        let mut out = StringMap::new();
        let mut removed = false;
        let mut i: usize = 0;
        proof {
            assert(pairs_map(pairs.take(0)) =~= Map::<Seq<char>, Seq<char>>::empty());
        }
        while i < n
            invariant
                i <= n,
                n == pairs.len(),
                pairs == self.directories.pairs(),
                distinct_keys(pairs),
                forall|j: int|
                    0 <= j < out.pairs().len() ==> exists|m: int|
                        0 <= m < i && (#[trigger] out.pairs()[j]).0 == (#[trigger] pairs[m]).0,
                forall|k: Seq<char>|
                    #[trigger] out@.contains_key(k) <==> pairs_map(
                        pairs.take(i as int),
                    ).contains_key(k) && !in_tree(k, first@) && !(second is Some && in_tree(
                        k,
                        second->0@,
                    )),
                forall|k: Seq<char>|
                    out@.contains_key(k) ==> #[trigger] out@[k] == pairs_map(
                        pairs.take(i as int),
                    )[k],
                removed <==> exists|k: Seq<char>|
                    pairs_map(pairs.take(i as int)).contains_key(k) && #[trigger] in_tree(
                        k,
                        first@,
                    ),
            decreases n - i,
        {
            let (k, v) = self.directories.entry(i);
            let ghost seen = pairs_map(pairs.take(i as int));
            let ghost now = pairs_map(pairs.take(i as int + 1));
            proof {
                assert(pairs.take(i as int + 1).drop_last() =~= pairs.take(i as int));
                assert(now == seen.insert(k@, v@));
            }
            let inside = is_in_tree(k, first);
            let outside = !inside && match second {
                Some(t) => !is_in_tree(k, t),
                None => true,
            };
            let ghost was_removed = removed;
            if inside {
                removed = true;
                assert(now.contains_key(k@) && in_tree(k@, first@));
            } else {
                proof {
                    if was_removed {
                        let w = choose|w: Seq<char>|
                            seen.contains_key(w) && #[trigger] in_tree(w, first@);
                        assert(now.contains_key(w) && in_tree(w, first@));
                    }
                }
            }
            if outside {
                proof {
                    assert forall|j: int| 0 <= j < out.pairs().len() implies (
                    #[trigger] out.pairs()[j]).0 != k@ by {
                        let m = choose|m: int|
                            0 <= m < i && out.pairs()[j].0 == (#[trigger] pairs[m]).0;
                        assert(pairs[m].0 != pairs[i as int].0);
                    }
                }
                let ghost had = out.pairs();
                out.push_new(String::from_str(k), String::from_str(v));
                proof {
                    assert forall|j: int| 0 <= j < out.pairs().len() implies exists|m: int|
                        0 <= m < i + 1 && (#[trigger] out.pairs()[j]).0 == (#[trigger] pairs[m]).0 by {
                        if j < had.len() {
                            let m = choose|m: int|
                                0 <= m < i && had[j].0 == (#[trigger] pairs[m]).0;
                            assert(out.pairs()[j].0 == pairs[m].0);
                        } else {
                            assert(out.pairs()[j].0 == pairs[i as int].0);
                        }
                    }
                }
            } else {
                proof {
                    assert forall|j: int| 0 <= j < out.pairs().len() implies exists|m: int|
                        0 <= m < i + 1 && (#[trigger] out.pairs()[j]).0 == (#[trigger] pairs[m]).0 by {
                        let m = choose|m: int|
                            0 <= m < i && out.pairs()[j].0 == (#[trigger] pairs[m]).0;
                        assert(out.pairs()[j].0 == pairs[m].0);
                    }
                    assert(!out@.contains_key(k@)) by {
                        if out@.contains_key(k@) {
                            assert(!in_tree(k@, first@));
                        }
                    }
                }
            }
            i = i + 1;
        }
        proof {
            assert(pairs.take(i as int) =~= pairs);
            assert forall|k: Seq<char>| out@.contains_key(k) implies password_fault(
                #[trigger] out@[k],
            ) is None by {
                assert(password_fault(self.directories@[k]) is None);
            }
        }
        (out, removed)
    }
}

/// Whether `k` is a directory on the way to a path, among the first `n` of them, where one is.
pub open spec fn on_chain_before(
    path: Seq<char>,
    present: Seq<bool>,
    k: Seq<char>,
    n: int,
) -> bool {
    exists|i: int| 0 <= i < n && i < present.len() && present[i] && k == #[trigger] chain(path)[i]
}

/// Whether `k` is a directory on the way to a path, where one is.
pub open spec fn on_chain(path: Seq<char>, present: Seq<bool>, k: Seq<char>) -> bool {
    on_chain_before(path, present, k, chain(path).len() as int)
}

proof fn lemma_on_chain_step(path: Seq<char>, present: Seq<bool>, k: Seq<char>, n: int)
    requires
        0 <= n < present.len(),
    ensures
        on_chain_before(path, present, k, n + 1) <==> (on_chain_before(path, present, k, n) || (
        present[n] && k == chain(path)[n])),
{
    if on_chain_before(path, present, k, n + 1) {
        let i = choose|i: int|
            0 <= i < n + 1 && i < present.len() && present[i] && k == #[trigger] chain(path)[i];
        if i < n {
            assert(on_chain_before(path, present, k, n));
        }
    }
    if on_chain_before(path, present, k, n) {
        let i = choose|i: int|
            0 <= i < n && i < present.len() && present[i] && k == #[trigger] chain(path)[i];
        assert(0 <= i < n + 1 && present[i] && k == chain(path)[i]);
    }
    if present[n] && k == chain(path)[n] {
        assert(0 <= n < n + 1 && present[n] && k == chain(path)[n]);
    }
}

/// A fault of the first entries is the fault of all of them.
proof fn lemma_first_fault(entries: Seq<(Seq<char>, Seq<char>)>, n: int)
    requires
        0 <= n <= entries.len(),
        entries_fault(entries.take(n)) is Some,
    ensures
        entries_fault(entries) == entries_fault(entries.take(n)),
    decreases entries.len(),
{
    if n == entries.len() {
        assert(entries.take(n) =~= entries);
    } else {
        assert(entries.drop_last().take(n) =~= entries.take(n));
        lemma_first_fault(entries.drop_last(), n);
    }
}

/// A place below one directory and the same place below another correspond to each other.
proof fn lemma_relocate(k: Seq<char>, from: Seq<char>, to: Seq<char>)
    requires
        in_tree(k, from),
    ensures
        in_tree(to + k.skip(from.len() as int), to),
        (to + k.skip(from.len() as int)).skip(to.len() as int) == k.skip(from.len() as int),
        from + k.skip(from.len() as int) == k,
{
    let moved = to + k.skip(from.len() as int);
    if k == from {
        assert(moved =~= to);
        assert(moved.skip(to.len() as int) =~= k.skip(from.len() as int));
        assert(from + k.skip(from.len() as int) =~= k);
    } else {
        let head = from.push('/');
        assert(k.take(head.len() as int) == head);
        assert forall|i: int| 0 <= i < from.len() implies k[i] == from[i] by {
            assert(k.take(head.len() as int)[i] == head[i]);
        }
        assert(k[from.len() as int] == '/') by {
            assert(k.take(head.len() as int)[from.len() as int] == head[from.len() as int]);
        }
        assert(moved.take(to.len() as int + 1) =~= to.push('/'));
        assert(moved.skip(to.len() as int) =~= k.skip(from.len() as int));
        assert(from + k.skip(from.len() as int) =~= k);
    }
}

impl DirectoryAuth {
    /// Lets the passwords of a directory, and of what lies below it, follow the directory to a new
    /// place, where they replace what was there. The result says whether there were any, so that
    /// the store is to be written; where there were none, nothing changes.
    pub fn move_tree(&mut self, source: &str, destination: &str) -> (r: Result<bool, AuthError>)
        ensures
            r is Err <==> !valid_path(source@) || !valid_path(destination@),
            r is Err ==> r->Err_0 == AuthError::InvalidPath && final(self)@ == old(self)@,
            r is Ok ==> (r->Ok_0 <==> exists|k: Seq<char>|
                old(self)@.directories.contains_key(k) && #[trigger] in_tree(k, source@)),
            r is Ok && !r->Ok_0 ==> final(self)@ == old(self)@,
            r is Ok && r->Ok_0 ==> final(self)@ == (DirectoryAuthView {
                directories: with_tree_moved(old(self)@.directories, source@, destination@),
                ..old(self)@
            }),
    {
        match validate_directory_path(source) {
            Err(e) => {
                return Err(e);
            },
            Ok(_) => {},
        }
        match validate_directory_path(destination) {
            Err(e) => {
                return Err(e);
            },
            Ok(_) => {},
        }
        proof {
            use_type_invariant(&*self);
        }
        let ghost all = self.directories@;
        let (kept, any) = self.keep_outside(source, Some(destination));
        if !any {
            return Ok(false);
        }
        let ghost outside = kept@;
        let source_len = chars_of(source).len();
        let mut out = kept;
        let n = self.directories.len();
        let ghost pairs = self.directories.pairs();
        let ghost (s, d) = (source@, destination@);
        let mut i: usize = 0;
        proof {
            assert(pairs_map(pairs.take(0)) =~= Map::<Seq<char>, Seq<char>>::empty());
            assert(relocated_onto(outside, pairs_map(pairs.take(0)), s, d) =~= outside);
        }
        while i < n
            invariant
                i <= n,
                n == pairs.len(),
                pairs == self.directories.pairs(),
                all == self.directories@,
                distinct_keys(pairs),
                s == source@,
                d == destination@,
                source_len == s.len(),
                all_valid(all),
                all_valid(out@),
                forall|k: Seq<char>| #[trigger] outside.contains_key(k) ==> !in_tree(k, d),
                out@ == relocated_onto(outside, pairs_map(pairs.take(i as int)), s, d),
            decreases n - i,
        {
            let (k, v) = self.directories.entry(i);
            let ghost seen = pairs_map(pairs.take(i as int));
            let ghost before = out@;
            proof {
                assert(pairs.take(i as int + 1).drop_last() =~= pairs.take(i as int));
                lemma_pairs_map_value(pairs, i as int);
                assert(password_fault(all[k@]) is None);
                lemma_relocated_step(outside, seen, s, d, k@, v@);
            }
            if is_in_tree(k, source) {
                proof {
                    lemma_relocate(k@, s, d);
                }
                let chars = chars_of(k);
                let suffix = crate::text::string_of(&chars, source_len, chars.len());
                let mut moved = String::from_str(destination);
                moved.append(suffix.as_str());
                proof {
                    assert(k@.skip(s.len() as int) =~= k@.subrange(s.len() as int, k@.len() as int));
                }
                out.insert(moved, String::from_str(v));
                proof {
                    assert forall|w: Seq<char>| out@.contains_key(w) implies password_fault(
                        #[trigger] out@[w],
                    ) is None by {
                        if w != d + k@.skip(s.len() as int) {
                            assert(password_fault(before[w]) is None);
                        }
                    }
                }
            }
            i = i + 1;
        }
        proof {
            assert(pairs.take(i as int) =~= pairs);
            assert(out@ =~= with_tree_moved(all, s, d));
        }
        self.replace_directories(out);
        Ok(true)
    }
}

/// The entries of `seen` that lie in the tree of `s`, put at their places in the tree of `d` on top
/// of the entries `kept`.
spec fn relocated_onto(
    kept: Map<Seq<char>, Seq<char>>,
    seen: Map<Seq<char>, Seq<char>>,
    s: Seq<char>,
    d: Seq<char>,
) -> Map<Seq<char>, Seq<char>> {
    Map::new(
        |k: Seq<char>|
            if in_tree(k, d) {
                seen.contains_key(s + k.skip(d.len() as int))
            } else {
                kept.contains_key(k)
            },
        |k: Seq<char>|
            if in_tree(k, d) {
                seen[s + k.skip(d.len() as int)]
            } else {
                kept[k]
            },
    )
}

proof fn lemma_relocated_step(
    kept: Map<Seq<char>, Seq<char>>,
    seen: Map<Seq<char>, Seq<char>>,
    s: Seq<char>,
    d: Seq<char>,
    key: Seq<char>,
    value: Seq<char>,
)
    ensures
        in_tree(key, s) ==> relocated_onto(kept, seen.insert(key, value), s, d) == relocated_onto(
            kept,
            seen,
            s,
            d,
        ).insert(d + key.skip(s.len() as int), value),
        !in_tree(key, s) ==> relocated_onto(kept, seen.insert(key, value), s, d) == relocated_onto(
            kept,
            seen,
            s,
            d,
        ),
{
    let after = relocated_onto(kept, seen.insert(key, value), s, d);
    let before = relocated_onto(kept, seen, s, d);
    assert forall|k: Seq<char>| in_tree(k, d) && #[trigger] (s + k.skip(d.len() as int)) == key implies
        in_tree(key, s) && k == d + key.skip(s.len() as int) by {
        lemma_relocate(k, d, s);
    }
    if in_tree(key, s) {
        lemma_relocate(key, s, d);
        let target = d + key.skip(s.len() as int);
        assert(s + target.skip(d.len() as int) == key);
        assert(after =~= before.insert(target, value));
    } else {
        assert(after =~= before);
    }
}

/// After a directory has moved, each password of its tree is found at the new place.
pub proof fn law_move_keeps_passwords(
    directories: Map<Seq<char>, Seq<char>>,
    source: Seq<char>,
    destination: Seq<char>,
    path: Seq<char>,
)
    requires
        directories.contains_key(path),
        in_tree(path, source),
    ensures
        ({
            let moved = with_tree_moved(directories, source, destination);
            let place = destination + path.skip(source.len() as int);
            moved.contains_key(place) && moved[place] == directories[path]
        }),
{
    lemma_relocate(path, source, destination);
}

/// After a directory has moved, the old place has no passwords any more, but for what the new place
/// shares with it.
pub proof fn law_move_clears_source(
    directories: Map<Seq<char>, Seq<char>>,
    source: Seq<char>,
    destination: Seq<char>,
    path: Seq<char>,
)
    requires
        in_tree(path, source),
        !in_tree(path, destination),
    ensures
        !with_tree_moved(directories, source, destination).contains_key(path),
{
}

/// A move leaves the passwords of all other directories alone.
pub proof fn law_move_keeps_others(
    directories: Map<Seq<char>, Seq<char>>,
    source: Seq<char>,
    destination: Seq<char>,
    path: Seq<char>,
)
    requires
        !in_tree(path, source),
        !in_tree(path, destination),
    ensures
        with_tree_moved(directories, source, destination).contains_key(path)
            == directories.contains_key(path),
        directories.contains_key(path) ==> with_tree_moved(directories, source, destination)[path]
            == directories[path],
{
}

/// Moving a directory to a place without passwords, apart from it, and back changes nothing.
pub proof fn law_move_back(
    directories: Map<Seq<char>, Seq<char>>,
    source: Seq<char>,
    destination: Seq<char>,
)
    requires
        !in_tree(source, destination),
        !in_tree(destination, source),
        forall|k: Seq<char>| #[trigger] directories.contains_key(k) ==> !in_tree(k, destination),
    ensures
        with_tree_moved(
            with_tree_moved(directories, source, destination),
            destination,
            source,
        ) == directories,
{
    let there = with_tree_moved(directories, source, destination);
    let back = with_tree_moved(there, destination, source);
    assert forall|k: Seq<char>| #[trigger] back.contains_key(k) == directories.contains_key(k) && (
    directories.contains_key(k) ==> back[k] == directories[k]) by {
        if in_tree(k, source) {
            lemma_relocate(k, source, destination);
            let w = destination + k.skip(source.len() as int);
            assert(in_tree(w, destination));
            assert(source + w.skip(destination.len() as int) == k);
        }
    }
    assert(back =~= directories);
}

/// After a directory has been removed, neither it nor anything below it has a password, and every
/// other directory keeps its own.
pub proof fn law_remove_tree(
    directories: Map<Seq<char>, Seq<char>>,
    root: Seq<char>,
    path: Seq<char>,
)
    ensures
        in_tree(path, root) ==> !without_tree(directories, root).contains_key(path),
        !in_tree(path, root) ==> without_tree(directories, root).contains_key(path)
            == directories.contains_key(path),
        !in_tree(path, root) && directories.contains_key(path) ==> without_tree(
            directories,
            root,
        )[path] == directories[path],
        without_tree(without_tree(directories, root), root) == without_tree(directories, root),
{
    assert(without_tree(without_tree(directories, root), root) =~= without_tree(directories, root));
}

/// The names that the temporary files of the store have.
pub open spec fn temporary_path(file: FsPathView, id: Seq<char>) -> FsPathView {
    let kept = match file.file_name_text() {
        Some(name) => name,
        None => "directory-auth.json"@,
    };
    let above = if file.file_name() is Some {
        file.parts.drop_last()
    } else {
        file.parts
    };
    FsPathView { absolute: file.absolute, parts: above.push(PartView::Text(kept + ".tmp-"@ + id)) }
}

impl DirectoryAuth {
    /// The directory that holds the store's file, and a fresh temporary file to write before it
    /// takes the place of that file.
    pub fn persist_places(&self) -> (r: Result<(FsPath, FsPath), AuthError>)
        ensures
            match r {
                Ok((parent, temp)) => {
                    &&& self@.file.parent() == Some(parent@)
                    &&& exists|id: Seq<char>|
                        #[trigger] is_simple_id(id) && temp@ == temporary_path(self@.file, id)
                },
                Err(e) => e == AuthError::InvalidFile && self@.file.parent() is None,
            },
    {
        let id = random_simple_id();
        match self.file.parent() {
            Some(parent) => Ok((parent, self.temporary_file(id.as_str()))),
            None => Err(AuthError::InvalidFile),
        }
    }

    /// The temporary file of the store with a given suffix.
    pub fn temporary_file(&self, id: &str) -> (r: FsPath)
        ensures
            r@ == temporary_path(self@.file, id@),
    {
        let mut name = match self.file.file_name_text() {
            Some(name) => String::from_str(name),
            None => String::from_str("directory-auth.json"),
        };
        name.append(".tmp-");
        name.append(id);
        let mut out = self.file.copy();
        if self.file.file_name().is_some() {
            let ghost before = out@.parts;
            out.parts.pop();
            assert(out@.parts =~= before.drop_last());
        }
        let ghost before = out@.parts;
        out.parts.push(PathPart::Text(name));
        assert(out@.parts =~= before.push(PartView::Text(name@)));
        out
    }
}

/// The server keeps the temporary files of the store to itself, as it does the file.
pub proof fn law_temporary_files_are_metadata(file: FsPathView, id: Seq<char>)
    requires
        file.file_name_text() is Some,
    ensures
        crate::paths::temporary_of(temporary_path(file, id), file),
{
    let kept = file.file_name_text()->0;
    let name = kept + ".tmp-"@ + id;
    let temp = temporary_path(file, id);
    reveal_strlit(".tmp-");
    assert(temp.parts.drop_last() =~= file.parts.drop_last());
    assert(name.take((kept + ".tmp-"@).len() as int) =~= kept + ".tmp-"@);
    assert(name.len() >= 5);
    assert(temp.parts.last() == PartView::Text(name));
    assert(name != seq!['.']) by {
        assert(seq!['.'].len() == 1);
    }
    assert(name != seq!['.', '.']) by {
        assert(seq!['.', '.'].len() == 2);
    }
}

} // verus!
