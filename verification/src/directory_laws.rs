//! What holds of the passwords of directories.
use crate::directory_auth::{
    chain, clean_name, entries_fault, entry_fault, error_text, in_tree, kept_or_fresh, loaded,
    nonempty, on_chain, on_chain_before, password_fault, path_names, tree_ensured, valid_path,
    with_tree_moved, without_tree, AuthError, DirectoryAuthView, DirectorySecrets,
};
use crate::exchange::{ExchangeView, GrantView};
use crate::paths::FsPathView;
use crate::server::ServerView;
use crate::string_map::{
    distinct_keys, lemma_pairs_map_keys, lemma_pairs_map_value, pair_texts,
};
use crate::text::{decimal_text, joined, lemma_pieces_nonempty, pieces};
use crate::text_laws::{
    law_join_continues, law_join_undoes_split, law_pieces_hold_no_separator, law_prefix_and_rest,
    law_split_at_separator,
};
use vstd::prelude::*;
use vstd::string::*;
use vstd::utf8::*;

verus! {

/// The tree of a directory is the directory itself and every path that continues it with a slash,
/// however deep it leads, and nothing else.
pub proof fn law_tree_reaches_all_depths(path: Seq<char>, root: Seq<char>, rest: Seq<char>)
    ensures
        in_tree(root, root),
        in_tree(root.push('/') + rest, root),
        in_tree(path, root) <==> path == root || exists|r: Seq<char>|
            path == #[trigger] (root.push('/') + r),
{
    law_prefix_and_rest(path, root.push('/'), rest);
}

/// What lies in the tree of a directory that lies in the tree of another one lies in the tree of that
/// one.
pub proof fn law_trees_nest(path: Seq<char>, middle: Seq<char>, root: Seq<char>)
    requires
        in_tree(path, middle),
        in_tree(middle, root),
    ensures
        in_tree(path, root),
{
    law_tree_reaches_all_depths(path, middle, Seq::empty());
    law_tree_reaches_all_depths(middle, root, Seq::empty());
    if path != middle && middle != root {
        let a = choose|r: Seq<char>| path == #[trigger] (middle.push('/') + r);
        let b = choose|r: Seq<char>| middle == #[trigger] (root.push('/') + r);
        assert(path =~= root.push('/') + (b.push('/') + a));
        law_tree_reaches_all_depths(path, root, b.push('/') + a);
    }
}

/// A directory whose name only begins like that of another one is not in its tree.
pub proof fn law_neighbours_are_apart(root: Seq<char>, c: char, rest: Seq<char>)
    requires
        c != '/',
    ensures
        !in_tree(root.push(c) + rest, root),
{
    let path = root.push(c) + rest;
    law_tree_reaches_all_depths(path, root, Seq::empty());
    assert(path[root.len() as int] == c);
    if path != root && in_tree(path, root) {
        let r = choose|r: Seq<char>| path == #[trigger] (root.push('/') + r);
        assert(path[root.len() as int] == '/');
    }
}

/// When a directory moves, its password and those of all directories below it, at every depth, are
/// found at the same place below its new path, and no others are there.
pub proof fn law_move_takes_all_depths(
    directories: Map<Seq<char>, Seq<char>>,
    source: Seq<char>,
    destination: Seq<char>,
    rest: Seq<char>,
)
    ensures
        ({
            let moved = with_tree_moved(directories, source, destination);
            let from = source.push('/') + rest;
            let to = destination.push('/') + rest;
            &&& moved.contains_key(destination) == directories.contains_key(source)
            &&& directories.contains_key(source) ==> moved[destination] == directories[source]
            &&& moved.contains_key(to) == directories.contains_key(from)
            &&& directories.contains_key(from) ==> moved[to] == directories[from]
        }),
{
    law_tree_reaches_all_depths(destination, destination, rest);
    let to = destination.push('/') + rest;
    assert(source + to.skip(destination.len() as int) =~= source.push('/') + rest);
    assert(source + destination.skip(destination.len() as int) =~= source);
}

/// When a directory moves to a place apart from it, no password is left at its old path, nor at any
/// depth below that.
pub proof fn law_move_leaves_nothing_behind(
    directories: Map<Seq<char>, Seq<char>>,
    source: Seq<char>,
    destination: Seq<char>,
    rest: Seq<char>,
)
    requires
        source != destination,
        forall|r: Seq<char>| source != #[trigger] (destination.push('/') + r),
        forall|r: Seq<char>| destination != #[trigger] (source.push('/') + r),
    ensures
        !with_tree_moved(directories, source, destination).contains_key(source),
        !with_tree_moved(directories, source, destination).contains_key(source.push('/') + rest),
{
    let path = source.push('/') + rest;
    law_tree_reaches_all_depths(source, source, rest);
    law_tree_reaches_all_depths(source, destination, rest);
    law_tree_reaches_all_depths(path, destination, rest);
    if in_tree(path, destination) {
        if path == destination {
            assert(destination == source.push('/') + rest);
        } else {
            let r = choose|r: Seq<char>| path == #[trigger] (destination.push('/') + r);
            lemma_common_path(source, rest, destination, r);
        }
    }
}

/// Of two directories above one path, one is the other or lies above it.
proof fn lemma_common_path(a: Seq<char>, x: Seq<char>, b: Seq<char>, y: Seq<char>)
    requires
        a.push('/') + x == b.push('/') + y,
    ensures
        a == b || (exists|r: Seq<char>| a == #[trigger] (b.push('/') + r)) || (exists|r: Seq<char>|
            b == #[trigger] (a.push('/') + r)),
{
    let s = a.push('/') + x;
    assert(s.take(a.len() as int) =~= a);
    assert(s.take(b.len() as int) =~= b);
    assert(s[a.len() as int] == '/');
    assert(s[b.len() as int] == '/');
    if a.len() < b.len() {
        let r = b.skip(a.len() as int + 1);
        assert forall|i: int| 0 <= i < b.len() implies b[i] == s[i] by {}
        assert(b =~= a.push('/') + r);
    } else if b.len() < a.len() {
        let r = a.skip(b.len() as int + 1);
        assert forall|i: int| 0 <= i < a.len() implies a[i] == s[i] by {}
        assert(a =~= b.push('/') + r);
    } else {
        assert(a =~= b);
    }
}

/// A move changes nothing for a directory that is neither of the two, nor below one of them.
pub proof fn law_move_spares_the_rest(
    directories: Map<Seq<char>, Seq<char>>,
    source: Seq<char>,
    destination: Seq<char>,
    path: Seq<char>,
)
    requires
        path != source,
        path != destination,
        forall|r: Seq<char>| path != #[trigger] (source.push('/') + r),
        forall|r: Seq<char>| path != #[trigger] (destination.push('/') + r),
    ensures
        ({
            let moved = with_tree_moved(directories, source, destination);
            &&& moved.contains_key(path) == directories.contains_key(path)
            &&& directories.contains_key(path) ==> moved[path] == directories[path]
        }),
{
    law_tree_reaches_all_depths(path, source, Seq::empty());
    law_tree_reaches_all_depths(path, destination, Seq::empty());
}

/// When a directory is deleted, its password and those of all directories below it, at every depth,
/// are forgotten, and no others.
pub proof fn law_removal_reaches_all_depths(
    directories: Map<Seq<char>, Seq<char>>,
    root: Seq<char>,
    rest: Seq<char>,
    path: Seq<char>,
)
    ensures
        ({
            let left = without_tree(directories, root);
            &&& !left.contains_key(root)
            &&& !left.contains_key(root.push('/') + rest)
            &&& path != root && (forall|r: Seq<char>| path != #[trigger] (root.push('/') + r)) ==> {
                &&& left.contains_key(path) == directories.contains_key(path)
                &&& directories.contains_key(path) ==> left[path] == directories[path]
            }
        }),
{
    law_tree_reaches_all_depths(path, root, rest);
}

/// The cookie of a directory opens the directory and all below it, at every depth, with the password
/// that the directory has; the password in the query is the one of the protecting directory itself.
/// Nothing else opens.
pub proof fn law_what_opens_a_directory(
    server: ServerView,
    ex: ExchangeView,
    grant: GrantView,
    auth: DirectoryAuthView,
)
    requires
        server.directory_auth == Some(auth),
    ensures
        server.granted(ex, Some(grant)) <==> {
            ||| ex.query.contains_key("dir_password"@) && ex.query["dir_password"@]
                == grant.password
            ||| exists|i: int|
                0 <= i < ex.cookies.len() && auth.directories.contains_pair(
                    (#[trigger] ex.cookies[i]).0,
                    ex.cookies[i].1,
                ) && (grant.directory == ex.cookies[i].0 || exists|r: Seq<char>|
                    grant.directory == #[trigger] (ex.cookies[i].0.push('/') + r))
        },
        !server.granted(ex, None),
{
    assert forall|i: int| 0 <= i < ex.cookies.len() implies in_tree(
        grant.directory,
        (#[trigger] ex.cookies[i]).0,
    ) == (grant.directory == ex.cookies[i].0 || exists|r: Seq<char>|
        grant.directory == #[trigger] (ex.cookies[i].0.push('/') + r)) by {
        law_tree_reaches_all_depths(grant.directory, ex.cookies[i].0, Seq::empty());
    }
}

/// A path is clean exactly if each of the names between its slashes is: not empty, `.` or `..`.
pub proof fn law_clean_paths(a: Seq<char>, b: Seq<char>, name: Seq<char>)
    ensures
        valid_path(a.push('/') + b) <==> valid_path(a) && valid_path(b),
        !name.contains('/') ==> (valid_path(name) <==> name.len() > 0 && name != seq!['.'] && name
            != seq!['.', '.']),
{
    law_split_at_separator(a, b, '/');
    law_split_at_separator(name, Seq::empty(), '/');
    let p = pieces(a, '/');
    let q = pieces(b, '/');
    let whole = pieces(a.push('/') + b, '/');
    if valid_path(a.push('/') + b) {
        assert forall|i: int| 0 <= i < p.len() implies clean_name(#[trigger] p[i]) by {
            assert(clean_name(whole[i]));
        }
        assert forall|i: int| 0 <= i < q.len() implies clean_name(#[trigger] q[i]) by {
            assert(clean_name(whole[p.len() + i]));
        }
    }
    if !name.contains('/') {
        assert(pieces(name, '/')[0] == name);
        if valid_path(name) {
            assert(clean_name(pieces(name, '/')[0]));
        }
    }
}

/// The names of a clean path are its pieces.
proof fn lemma_clean_names(path: Seq<char>)
    requires
        valid_path(path),
    ensures
        path_names(path) == pieces(path, '/'),
{
    lemma_nonempty_stays(pieces(path, '/'));
}

proof fn lemma_nonempty_stays(names: Seq<Seq<char>>)
    requires
        forall|i: int| 0 <= i < names.len() ==> clean_name(#[trigger] names[i]),
    ensures
        nonempty(names) == names,
    decreases names.len(),
{
    if names.len() > 0 {
        let front = names.drop_last();
        assert forall|i: int| 0 <= i < front.len() implies clean_name(#[trigger] front[i]) by {
            assert(front[i] == names[i]);
        }
        lemma_nonempty_stays(front);
        assert(clean_name(names[names.len() - 1]));
        assert(front.push(names.last()) =~= names);
    }
}

/// The directories on the way to a clean path are the path and what stands before each of its
/// slashes, and each of them gets a password where it is there.
pub proof fn law_directories_on_the_way(path: Seq<char>, present: Seq<bool>, k: Seq<char>)
    requires
        valid_path(path),
        present.len() == chain(path).len(),
        forall|i: int| 0 <= i < present.len() ==> #[trigger] present[i],
    ensures
        on_chain(path, present, k) <==> k == path || exists|r: Seq<char>|
            path == #[trigger] (k.push('/') + r),
{
    lemma_clean_names(path);
    let names = pieces(path, '/');
    lemma_pieces_nonempty(path, '/');
    law_join_undoes_split(path, names, '/');
    law_pieces_hold_no_separator(path, '/');
    assert(chain(path).len() == names.len());
    if k == path {
        assert(names.take(names.len() as int) =~= names);
        assert(chain(path)[names.len() - 1] == path);
        assert(on_chain_before(path, present, k, chain(path).len() as int));
    }
    if exists|r: Seq<char>| path == #[trigger] (k.push('/') + r) {
        let r = choose|r: Seq<char>| path == #[trigger] (k.push('/') + r);
        law_split_at_separator(k, r, '/');
        lemma_pieces_nonempty(k, '/');
        lemma_pieces_nonempty(r, '/');
        law_join_undoes_split(k, names, '/');
        let n = pieces(k, '/').len() as int;
        assert(names.take(n) =~= pieces(k, '/'));
        assert(chain(path)[n - 1] == k);
        assert(on_chain_before(path, present, k, chain(path).len() as int));
    }
    if on_chain(path, present, k) {
        let i = choose|i: int|
            0 <= i < chain(path).len() && i < present.len() && present[i] && k
                == #[trigger] chain(path)[i];
        let t = names.take(i + 1);
        let u = names.skip(i + 1);
        assert(k == joined(t, '/'));
        if i + 1 == names.len() {
            assert(t =~= names);
        } else {
            let r = joined(u, '/');
            assert forall|j: int| 0 <= j < t.len() implies !(#[trigger] t[j]).contains('/') by {
                assert(t[j] == names[j]);
            }
            assert forall|j: int| 0 <= j < u.len() implies !(#[trigger] u[j]).contains('/') by {
                assert(u[j] == names[i + 1 + j]);
            }
            law_join_undoes_split(k, t, '/');
            law_join_undoes_split(r, u, '/');
            law_split_at_separator(k, r, '/');
            let whole = k.push('/') + r;
            law_join_undoes_split(whole, t, '/');
            assert(t + u =~= names);
            assert(whole == path);
        }
    }
}

/// When the directories on the way to a clean path are given passwords, the path and every directory
/// above it have one then: the one it had, or a new one of thirty-two characters. No other directory
/// gets or loses one.
pub proof fn law_ways_are_protected(
    before: DirectoryAuthView,
    after: DirectoryAuthView,
    path: Seq<char>,
    present: Seq<bool>,
    k: Seq<char>,
)
    requires
        tree_ensured(before, after, path, present),
        valid_path(path),
        present.len() == chain(path).len(),
        forall|i: int| 0 <= i < present.len() ==> #[trigger] present[i],
    ensures
        after.directories.contains_key(k) <==> before.directories.contains_key(k) || k == path
            || exists|r: Seq<char>| path == #[trigger] (k.push('/') + r),
        before.directories.contains_key(k) ==> after.directories[k] == before.directories[k],
        after.directories.contains_key(k) && !before.directories.contains_key(k)
            ==> after.directories[k].len() == 32,
        after.root == before.root && after.file == before.file,
{
    law_directories_on_the_way(path, present, k);
    if after.directories.contains_key(k) {
        assert(kept_or_fresh(before.directories, after.directories, k));
    }
}

/// A directory that is not there gets no password: nothing changes where none on the way is there.
pub proof fn law_missing_directories_get_none(
    before: DirectoryAuthView,
    after: DirectoryAuthView,
    path: Seq<char>,
    present: Seq<bool>,
)
    requires
        tree_ensured(before, after, path, present),
        forall|i: int| 0 <= i < present.len() ==> !#[trigger] present[i],
    ensures
        after.directories == before.directories,
{
    assert forall|k: Seq<char>| #[trigger] after.directories.contains_key(k)
        == before.directories.contains_key(k) by {
        if on_chain(path, present, k) {
            let i = choose|i: int|
                0 <= i < chain(path).len() && i < present.len() && present[i] && k
                    == #[trigger] chain(path)[i];
            assert(!present[i]);
        }
    }
    assert forall|k: Seq<char>| after.directories.contains_key(k) implies
        #[trigger] after.directories[k] == before.directories[k] by {
        assert(kept_or_fresh(before.directories, after.directories, k));
    }
    assert(after.directories =~= before.directories);
}

/// The way to a directory of a name is the directory; to a directory in another one it is the way to
/// that one, and then the directory.
pub proof fn law_ways_grow_by_names(path: Seq<char>, name: Seq<char>)
    requires
        valid_path(path),
        valid_path(name),
        !name.contains('/'),
    ensures
        chain(name) == seq![name],
        chain(path.push('/') + name) == chain(path).push(path.push('/') + name),
{
    law_clean_paths(path, name, name);
    lemma_clean_names(path);
    lemma_clean_names(name);
    let whole = path.push('/') + name;
    lemma_clean_names(whole);
    law_split_at_separator(path, name, '/');
    law_split_at_separator(name, Seq::empty(), '/');
    law_join_undoes_split(whole, pieces(whole, '/'), '/');
    let p = pieces(path, '/');
    let w = pieces(whole, '/');
    assert(seq![name].take(1) =~= seq![name]);
    assert(chain(name) =~= seq![name]);
    assert(w.take(w.len() as int) =~= w);
    assert forall|i: int| 0 <= i < p.len() implies #[trigger] chain(whole)[i] == chain(path)[i] by {
        assert(w.take(i + 1) =~= p.take(i + 1));
    }
    assert(chain(whole) =~= chain(path).push(whole));
}

/// A password is allowed exactly if it has from eight to a hundred and twenty-eight bytes and holds no
/// control character; which of the two is wrong is said, the length first.
pub proof fn law_allowed_passwords(password: Seq<char>)
    ensures
        password_fault(password) is None <==> 8 <= encode_utf8(password).len() <= 128 && forall|i: int|
            0 <= i < password.len() ==> '\u{20}' <= #[trigger] password[i] && !('\u{7f}'
                <= password[i] <= '\u{9f}'),
        encode_utf8(password).len() < 8 || encode_utf8(password).len() > 128 ==> password_fault(
            password,
        ) == Some(AuthError::PasswordLength),
        8 <= encode_utf8(password).len() <= 128 && password_fault(password) is Some
            ==> password_fault(password) == Some(AuthError::PasswordControl),
{
    if password_fault(password) is None {
        assert forall|i: int| 0 <= i < password.len() implies '\u{20}' <= #[trigger] password[i]
            && !('\u{7f}' <= password[i] <= '\u{9f}') by {
            assert(!crate::directory_auth::is_control(password[i]));
        }
    }
}

/// What is wrong with a path comes before what is wrong with a password.
pub proof fn law_entries_are_checked(path: Seq<char>, password: Seq<char>)
    ensures
        entry_fault(path, password) is None <==> valid_path(path) && password_fault(password) is None,
        !valid_path(path) ==> entry_fault(path, password) == Some(AuthError::InvalidPath),
        valid_path(path) ==> entry_fault(path, password) == password_fault(password),
{
}

/// A list of entries is in order exactly if each of them is, and else the first that is not counts.
pub proof fn law_first_wrong_entry_counts(entries: Seq<(Seq<char>, Seq<char>)>, n: int)
    requires
        0 <= n <= entries.len(),
        forall|i: int|
            0 <= i < n ==> entry_fault((#[trigger] entries[i]).0, entries[i].1) is None,
    ensures
        n == entries.len() ==> entries_fault(entries) is None,
        n < entries.len() && entry_fault(entries[n].0, entries[n].1) is Some ==> entries_fault(
            entries,
        ) == entry_fault(entries[n].0, entries[n].1),
    decreases entries.len(),
{
    if entries.len() > 0 {
        let front = entries.drop_last();
        let m = if n < entries.len() {
            n
        } else {
            n - 1
        };
        assert forall|i: int| 0 <= i < m implies entry_fault(
            (#[trigger] front[i]).0,
            front[i].1,
        ) is None by {
            assert(front[i] == entries[i]);
        }
        law_first_wrong_entry_counts(front, m);
        if n < entries.len() - 1 {
            assert(front[n] == entries[n]);
        }
        assert(entries[entries.len() - 1] == entries.last());
    }
}

/// Stored passwords are taken up as they are: each directory has the password that is stored for it,
/// and no other directory has one. Another version of the store is refused, and so is a store with a
/// wrong entry; where nothing is stored, there are no passwords.
pub proof fn law_stored_passwords_are_taken_up(
    root: FsPathView,
    file: FsPathView,
    secrets: DirectorySecrets,
    k: Seq<char>,
    i: int,
)
    ensures
        ({
            let entries = pair_texts(secrets.directories@);
            let ok = secrets.version == 1 && entries_fault(entries) is None;
            let auth = loaded(root, file, Some(secrets))->Ok_0;
            &&& ok <==> loaded(root, file, Some(secrets)) is Ok
            &&& ok ==> auth.root == root && auth.file == file
            &&& ok && distinct_keys(entries) && 0 <= i < entries.len()
                ==> auth.directories.contains_pair(entries[i].0, entries[i].1)
            &&& ok && auth.directories.contains_key(k) ==> exists|j: int|
                0 <= j < entries.len() && (#[trigger] entries[j]).0 == k
            &&& secrets.version != 1 ==> loaded(root, file, Some(secrets)) == Err::<
                DirectoryAuthView,
                AuthError,
            >(AuthError::UnsupportedVersion(secrets.version))
            &&& secrets.version == 1 && entries_fault(entries) is Some ==> loaded(
                root,
                file,
                Some(secrets),
            ) == Err::<DirectoryAuthView, AuthError>(entries_fault(entries)->0)
        }),
        loaded(root, file, None) is Ok,
        loaded(root, file, None)->Ok_0.directories == Map::<Seq<char>, Seq<char>>::empty(),
{
    let entries = pair_texts(secrets.directories@);
    lemma_pairs_map_keys(entries);
    if distinct_keys(entries) && 0 <= i < entries.len() {
        lemma_pairs_map_value(entries, i);
    }
}

/// What errors say.
pub proof fn law_errors_say_what_is_wrong(v: u8)
    ensures
        error_text(AuthError::UnsupportedVersion(v)) == "Unsupported directory auth file version "@
            + decimal_text(v as nat),
        error_text(AuthError::InvalidPath) == "Invalid directory auth path"@,
        error_text(AuthError::PasswordLength)
            == "Directory password must contain between 8 and 128 bytes"@,
        error_text(AuthError::PasswordControl)
            == "Directory password cannot contain control characters"@,
        error_text(AuthError::InvalidFile) == "Invalid directory auth file path"@,
{
}

/// The names of a path are put together to the path again, without empty ones.
pub proof fn law_names_of_paths(path: Seq<char>)
    requires
        valid_path(path),
    ensures
        joined(path_names(path), '/') == path,
        path_names(seq!['/'] + path) == path_names(path),
        path_names(path.push('/')) == path_names(path),
        path_names(Seq::empty()) == Seq::<Seq<char>>::empty(),
{
    let empty = Seq::<char>::empty();
    lemma_clean_names(path);
    law_join_undoes_split(path, pieces(path, '/'), '/');
    law_join_continues(pieces(path, '/'), empty, '/');
    law_split_at_separator(empty, path, '/');
    law_split_at_separator(path, empty, '/');
    assert(empty.push('/') + path =~= seq!['/'] + path);
    assert(path.push('/') + empty =~= path.push('/'));
    let p = pieces(path, '/');
    assert(pieces(empty, '/') =~= seq![empty]);
    assert((p + seq![empty]).drop_last() =~= p);
    lemma_empty_name_goes(p);
    reveal_with_fuel(nonempty, 2);
    assert(seq![empty].drop_last() =~= Seq::<Seq<char>>::empty());
}

proof fn lemma_empty_name_goes(names: Seq<Seq<char>>)
    ensures
        nonempty(seq![Seq::<char>::empty()] + names) == nonempty(names),
    decreases names.len(),
{
    let whole = seq![Seq::<char>::empty()] + names;
    if names.len() == 0 {
        reveal_with_fuel(nonempty, 2);
        assert(names =~= Seq::<Seq<char>>::empty());
        assert(whole.drop_last() =~= Seq::<Seq<char>>::empty());
        assert(whole.last().len() == 0);
    } else {
        lemma_empty_name_goes(names.drop_last());
        assert(whole.drop_last() =~= seq![Seq::<char>::empty()] + names.drop_last());
        assert(whole.last() == names.last());
    }
}

} // verus!
