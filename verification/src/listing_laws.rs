//! What holds of listings, searches and archives.
use crate::access::AccessPerm;
use crate::items::{
    is_dir_type, precedes, DataKind, EditData, IndexData, PathItemView, PathType, SortKey,
};
use crate::listing::{
    counted, excluded_by, hides, rule_pattern, search_of, verdict, EntryFacts, ItemOutcomeView,
    SearchView, Verdict,
};
use crate::outside::{alphanumeric_order, escaped, lower_case};
use crate::pages::{format_of, simple_lines, IndexFormat};
use crate::paths::{FsPathView, PartView};
use crate::server::ServerView;
use crate::sorting::{
    arranged, consistent, directories_first, goes_before, in_order, law_directories_come_first,
    law_numbers_order_consistently, law_sorted_is_in_order, picked, rearranges, sorted_from,
};
use crate::text::joined;
use std::cmp::Ordering;
use vstd::prelude::*;
use vstd::std_specs::cmp::PartialOrdSpec;
use vstd::string::*;

verus! {

/// A walk passes over a whole tree only where its directory is hidden, is kept to the server, or lies
/// outside; a directory that is merely not looked for is walked into. What is looked for and is none
/// of these is taken, and everything else is passed over.
pub proof fn law_walks_enter_directories(
    hidden: bool,
    is_dir: bool,
    canonical: Option<FsPathView>,
    excluded: Option<FsPathView>,
    follow_symlinks: bool,
    serve_path: FsPathView,
    included: bool,
)
    ensures
        ({
            let v = verdict(
                hidden,
                is_dir,
                canonical,
                excluded,
                follow_symlinks,
                serve_path,
                included,
            );
            let barred = hidden || excluded_by(canonical, excluded) || (!follow_symlinks && !(
            canonical is Some && canonical->0.starts_with(serve_path)));
            &&& v == Verdict::PassTree <==> is_dir && barred
            &&& v == Verdict::Take <==> included && !barred
            &&& v == Verdict::Pass <==> (!is_dir && barred) || (!included && !barred)
        }),
{
}

/// What a walk keeps to the server: the file that stores the passwords, and what lies beside it under
/// its name with `.tmp-` and more behind it. Without such a file nothing is.
pub proof fn law_walks_spare_the_password_file(
    canonical: FsPathView,
    excluded: FsPathView,
    above: Seq<PartView>,
    name: Seq<char>,
    rest: Seq<char>,
)
    ensures
        excluded_by(Some(excluded), Some(excluded)),
        !excluded_by(None, Some(excluded)),
        !excluded_by(Some(canonical), None),
        name.len() > 0 && name != seq!['.'] && name != seq!['.', '.'] && excluded.parts
            == above.push(PartView::Text(name)) && canonical == (FsPathView {
            absolute: excluded.absolute,
            parts: above.push(PartView::Text(name + ".tmp-"@ + rest)),
        }) ==> excluded_by(Some(canonical), Some(excluded)),
        canonical != excluded && (canonical.parts.len() != excluded.parts.len()
            || canonical.parts.drop_last() != excluded.parts.drop_last()) ==> !excluded_by(
            Some(canonical),
            Some(excluded),
        ),
{
    let longer = name + ".tmp-"@ + rest;
    reveal_strlit(".tmp-");
    crate::text_laws::law_prefix_and_rest(longer, name + ".tmp-"@, rest);
    assert(above.push(PartView::Text(name)).drop_last() =~= above);
    assert(above.push(PartView::Text(longer)).drop_last() =~= above);
    assert(longer.len() > 2);
    assert(longer != seq!['.']);
    assert(longer != seq!['.', '.']);
    if canonical.parts.len() > 0 && excluded.parts.len() > 0 && canonical.parts.drop_last()
        == excluded.parts.drop_last() {
        assert(canonical.parts.drop_last().len() == excluded.parts.drop_last().len());
    }
}

/// A rule hides what its pattern matches; for directories a slash at its end does not count.
pub proof fn law_rules_hide_what_they_match(
    matching: spec_fn(Seq<char>, Seq<char>) -> bool,
    rule: Seq<char>,
    name: Seq<char>,
    is_dir: bool,
)
    ensures
        !(rule.len() > 0 && rule.last() == '/') || !is_dir ==> hides(
            matching,
            seq![rule],
            name,
            is_dir,
        ) == matching(rule, name),
        hides(matching, seq![rule.push('/')], name, true) == matching(rule, name),
        hides(matching, seq![rule.push('/')], name, false) == matching(rule.push('/'), name),
{
    assert(seq![rule][0] == rule);
    assert(seq![rule.push('/')][0] == rule.push('/'));
    assert(rule.push('/').drop_last() =~= rule);
}

/// Each rule hides for itself: of two lists of rules together either may hide, and no rules hide
/// nothing.
pub proof fn law_each_rule_hides(
    matching: spec_fn(Seq<char>, Seq<char>) -> bool,
    rules: Seq<Seq<char>>,
    more: Seq<Seq<char>>,
    name: Seq<char>,
    is_dir: bool,
)
    ensures
        hides(matching, rules + more, name, is_dir) == (hides(matching, rules, name, is_dir)
            || hides(matching, more, name, is_dir)),
        !hides(matching, Seq::empty(), name, is_dir),
{
    let all = rules + more;
    if hides(matching, all, name, is_dir) {
        let i = choose|i: int|
            0 <= i < all.len() && matching(rule_pattern(#[trigger] all[i], is_dir), name);
        if i < rules.len() {
            assert(all[i] == rules[i]);
        } else {
            assert(all[i] == more[i - rules.len()]);
        }
    }
    if hides(matching, rules, name, is_dir) {
        let i = choose|i: int|
            0 <= i < rules.len() && matching(rule_pattern(#[trigger] rules[i], is_dir), name);
        assert(all[i] == rules[i]);
    }
    if hides(matching, more, name, is_dir) {
        let i = choose|i: int|
            0 <= i < more.len() && matching(rule_pattern(#[trigger] more[i], is_dir), name);
        assert(all[i + rules.len()] == more[i]);
    }
}

/// An entry counts if it is not hidden, up to a thousand entries.
pub proof fn law_entries_are_counted(hidden: Seq<bool>)
    ensures
        counted(Seq::empty()) == 0,
        counted(hidden.push(true)) == counted(hidden),
        counted(hidden) < 1000 ==> counted(hidden.push(false)) == counted(hidden) + 1,
        counted(hidden) == 1000 ==> counted(hidden.push(false)) == 1000,
        counted(hidden) <= 1000,
    decreases hidden.len(),
{
    assert(hidden.push(true).drop_last() =~= hidden);
    assert(hidden.push(false).drop_last() =~= hidden);
    if hidden.len() > 0 {
        law_entries_are_counted(hidden.drop_last());
        assert(hidden.drop_last().push(hidden.last()) =~= hidden);
    }
}

/// An entry of a directory is listed under its name below that directory, as what it is, with its size
/// and time, and with the password of the directory that protects it where directories have some.
pub proof fn law_entries_are_listed(
    server: ServerView,
    base: FsPathView,
    names: Seq<Seq<char>>,
    facts: EntryFacts,
    password: Option<Seq<char>>,
)
    requires
        names.len() > 0,
        server.args.allow_symlink || !facts.is_symlink || facts.contained,
        base.absolute || base.parts.len() > 0,
        server.directory_auth is Some ==> server.args.serve_path == base,
    ensures
        ({
            let path = FsPathView {
                absolute: base.absolute,
                parts: base.parts + names.map_values(|n: Seq<char>| PartView::Text(n)),
            };
            let outcome = server.item(path, base, facts, password);
            let item = outcome->Item_0;
            &&& outcome is Item
            &&& item.name == joined(names, '/')
            &&& item.size == facts.size
            &&& item.directory_password == if server.directory_auth is Some {
                password
            } else {
                None
            }
            &&& !facts.is_symlink && facts.is_dir ==> item.path_type == PathType::Dir
            &&& !facts.is_symlink && !facts.is_dir ==> item.path_type == PathType::File
            &&& facts.is_symlink && facts.is_dir ==> item.path_type == PathType::SymlinkDir
            &&& facts.is_symlink && !facts.is_dir ==> item.path_type == PathType::SymlinkFile
            &&& facts.mtime is None ==> item.mtime == 0
            &&& facts.mtime matches Some((secs, nanos)) ==> secs * 1000 + nanos as int / 1000000
                <= u64::MAX ==> item.mtime == secs * 1000 + nanos as int / 1000000
        }),
{
    let parts = names.map_values(|n: Seq<char>| PartView::Text(n));
    let path = FsPathView { absolute: base.absolute, parts: base.parts + parts };
    assert(path.parts.take(base.parts.len() as int) =~= base.parts);
    assert(path.parts.skip(base.parts.len() as int) =~= parts);
    let rest = path.strip_prefix(base)->0;
    assert(rest.parts.map_values(|p: PartView| p->Text_0) =~= names);
    assert forall|i: int| 0 <= i < rest.parts.len() implies (#[trigger] rest.parts[i]) is Text by {
        assert(rest.parts[i] == parts[i]);
    }
}

/// A link out of the served directory is not listed unless such links are followed, and neither is a
/// place that is not below the directory.
pub proof fn law_links_out_are_not_listed(
    server: ServerView,
    path: FsPathView,
    base: FsPathView,
    facts: EntryFacts,
    password: Option<Seq<char>>,
)
    ensures
        server.item(path, base, facts, password) == ItemOutcomeView::Skipped <==> facts.is_symlink
            && !facts.contained && !server.args.allow_symlink,
        server.item(path, base, facts, password) is Item ==> path.starts_with(base),
        server.item(path, base, facts, password) is Item && server.directory_auth is Some
            ==> path.starts_with(server.args.serve_path),
        path.starts_with(base) && (server.directory_auth is Some ==> path.starts_with(
            server.args.serve_path,
        )) ==> !(server.item(path, base, facts, password) is Failed),
{
}

/// A search looks for the text of the query in lower case, in the names in lower case; an empty text
/// lists the directory, and without one there is nothing to do.
pub proof fn law_searches(query: Map<Seq<char>, Seq<char>>)
    ensures
        query.contains_key("q"@) && lower_case(query["q"@]).len() > 0 ==> search_of(query)
            == SearchView::Find(lower_case(query["q"@])),
        query.contains_key("q"@) && lower_case(query["q"@]).len() == 0 ==> search_of(query)
            == SearchView::List,
        !query.contains_key("q"@) ==> search_of(query) == SearchView::Missing,
{
}

/// A directory comes before a file; among themselves entries are ordered by what is asked for, the
/// lower first: the name, in lower case and with numbers by their value, the time, or the size.
pub proof fn law_order_of_entries(a: PathItemView, b: PathItemView)
    ensures
        ({
            let first = a.path_type == PathType::Dir || a.path_type == PathType::SymlinkDir;
            let second = b.path_type == PathType::Dir || b.path_type == PathType::SymlinkDir;
            &&& first && !second ==> precedes(a, b, SortKey::Name) && precedes(a, b, SortKey::Mtime)
                && precedes(a, b, SortKey::Size)
            &&& !first && second ==> !precedes(a, b, SortKey::Name) && !precedes(
                a,
                b,
                SortKey::Mtime,
            ) && !precedes(a, b, SortKey::Size)
            &&& first == second ==> precedes(a, b, SortKey::Mtime) == (a.mtime < b.mtime)
            &&& first == second ==> precedes(a, b, SortKey::Size) == (a.size < b.size)
            &&& first == second ==> precedes(a, b, SortKey::Name) == (alphanumeric_order(
                lower_case(a.name),
                lower_case(b.name),
            ) == Ordering::Less)
        }),
{
}

/// Of two entries one comes before the other exactly if the other comes after it, by time and by size
/// and, where the names are told apart so, by name; types alone put directories first.
pub proof fn law_order_goes_both_ways(a: PathItemView, b: PathItemView, x: PathType, y: PathType)
    ensures
        a.order(b, SortKey::Mtime) == Ordering::Greater <==> b.order(a, SortKey::Mtime)
            == Ordering::Less,
        a.order(b, SortKey::Size) == Ordering::Greater <==> b.order(a, SortKey::Size)
            == Ordering::Less,
        a.path_type == b.path_type ==> a.order(b, SortKey::Name) == alphanumeric_order(
            lower_case(a.name),
            lower_case(b.name),
        ),
        a.path_type == b.path_type && a.mtime == b.mtime ==> a.order(b, SortKey::Mtime)
            == Ordering::Equal,
        a.path_type == b.path_type && a.size == b.size ==> a.order(b, SortKey::Size)
            == Ordering::Equal,
        ({
            let first = x == PathType::Dir || x == PathType::SymlinkDir;
            let second = y == PathType::Dir || y == PathType::SymlinkDir;
            &&& first && !second ==> x.partial_cmp_spec(&y) == Some(Ordering::Less)
            &&& !first && second ==> x.partial_cmp_spec(&y) == Some(Ordering::Greater)
            &&& first == second ==> x.partial_cmp_spec(&y) == Some(Ordering::Equal)
        }),
{
}

/// A list sorted by time or size rises: directories first, and among directories and among files no
/// entry has a greater time or size than a later one.
pub proof fn law_sorted_lists_rise(
    before: Seq<PathItemView>,
    after: Seq<PathItemView>,
    key: SortKey,
    i: int,
    j: int,
)
    requires
        sorted_from(before, after, key),
        0 <= i < j < after.len(),
    ensures
        ({
            let first = after[i].path_type == PathType::Dir || after[i].path_type
                == PathType::SymlinkDir;
            let second = after[j].path_type == PathType::Dir || after[j].path_type
                == PathType::SymlinkDir;
            &&& second ==> first
            &&& key == SortKey::Mtime && first == second ==> after[i].mtime <= after[j].mtime
            &&& key == SortKey::Size && first == second ==> after[i].size <= after[j].size
            &&& key == SortKey::Name && first == second && consistent(before, key)
                ==> alphanumeric_order(lower_case(after[j].name), lower_case(after[i].name))
                != Ordering::Less
        }),
{
    law_directories_come_first(before, after, key);
    if key == SortKey::Mtime || key == SortKey::Size {
        law_numbers_order_consistently(before, key);
    }
    if consistent(before, key) {
        law_sorted_is_in_order(before, after, key);
        assert(!precedes(after[j], after[i], key));
    }
}

/// A sorted list is the list in another order: each of its entries comes from a place of its own, and
/// entries of the same kind and of the same time, or size, stay in the order in which they were.
pub proof fn law_sorting_only_rearranges(
    before: Seq<PathItemView>,
    after: Seq<PathItemView>,
    key: SortKey,
)
    requires
        sorted_from(before, after, key),
    ensures
        exists|places: Seq<usize>|
            #![trigger places.len()]
            places.len() == before.len() && after.len() == before.len() && (forall|a: int, b: int|
                0 <= a < b < places.len() ==> #[trigger] places[a] != #[trigger] places[b]) && (
            forall|a: int|
                0 <= a < places.len() ==> #[trigger] places[a] < before.len() && after[a]
                    == before[places[a] as int]) && (key == SortKey::Mtime || key == SortKey::Size
                ==> forall|a: int, b: int|
                0 <= a < b < places.len() && is_dir_type(after[a].path_type) == is_dir_type(
                    after[b].path_type,
                ) && (if key == SortKey::Mtime {
                    after[a].mtime == after[b].mtime
                } else {
                    after[a].size == after[b].size
                }) ==> #[trigger] places[a] < #[trigger] places[b]),
{
    let places = choose|positions: Seq<usize>| #[trigger]
        rearranges(positions, 0, before.len() as int) && after == picked(before, positions)
            && directories_first(before, positions) && (consistent(before, key) ==> in_order(
            before,
            key,
            positions,
        ));
    if key == SortKey::Mtime || key == SortKey::Size {
        law_numbers_order_consistently(before, key);
        assert forall|a: int, b: int|
            0 <= a < b < places.len() && is_dir_type(after[a].path_type) == is_dir_type(
                after[b].path_type,
            ) && (if key == SortKey::Mtime {
                after[a].mtime == after[b].mtime
            } else {
                after[a].size == after[b].size
            }) implies #[trigger] places[a] < #[trigger] places[b] by {
            assert(goes_before(before, key, places[a] as int, places[b] as int));
            assert(after[a] == before[places[a] as int]);
            assert(after[b] == before[places[b] as int]);
        }
    }
    assert forall|a: int| 0 <= a < places.len() implies #[trigger] places[a] < before.len()
        && after[a] == before[places[a] as int] by {}
    assert(places.len() == before.len());
}

/// A listing is sorted by name, or by what the query says, and turned round where it says so too; an
/// order that there is not leaves the entries as they come.
pub proof fn law_listings_are_arranged(
    before: Seq<PathItemView>,
    after: Seq<PathItemView>,
    query: Map<Seq<char>, Seq<char>>,
)
    requires
        arranged(before, after, query),
    ensures
        ({
            let sort = query.contains_key("sort"@);
            let turned = sort && query.contains_key("order"@) && query["order"@] == "desc"@;
            let forward = if turned {
                after.reverse()
            } else {
                after
            };
            &&& !sort || query["sort"@] == "name"@ ==> sorted_from(before, forward, SortKey::Name)
            &&& sort && query["sort"@] == "mtime"@ ==> sorted_from(before, forward, SortKey::Mtime)
            &&& sort && query["sort"@] == "size"@ ==> sorted_from(before, forward, SortKey::Size)
            &&& sort && query["sort"@] != "name"@ && query["sort"@] != "mtime"@ && query["sort"@]
                != "size"@ ==> forward == before
        }),
{
    reveal_strlit("name");
    reveal_strlit("mtime");
    reveal_strlit("size");
    assert("name"@[0] != "size"@[0]);
    assert("mtime"@.len() != "size"@.len());
    assert("mtime"@.len() != "name"@.len());
}

/// A listing is written out as the query says: as data, as a page without scripts, or as the page of
/// the user interface.
pub proof fn law_listings_are_written_out(query: Map<Seq<char>, Seq<char>>)
    ensures
        ({
            let json = query.contains_key("json"@) && query["json"@].len() == 0;
            let noscript = query.contains_key("noscript"@) && query["noscript"@].len() == 0;
            &&& json ==> format_of(query) == IndexFormat::Json
            &&& !json && noscript ==> format_of(query) == IndexFormat::Noscript
            &&& !json && !noscript ==> format_of(query) == IndexFormat::Page
        }),
{
}

/// A plain listing has a line for each entry in its order: its name, escaped, with a slash behind that
/// of a directory.
pub proof fn law_plain_listings(items: Seq<PathItemView>, item: PathItemView)
    ensures
        simple_lines(Seq::empty()) == Seq::<char>::empty(),
        simple_lines(items.push(item)) == simple_lines(items) + (escaped(item.name) + if item.path_type
            == PathType::Dir || item.path_type == PathType::SymlinkDir {
            "/\n"@
        } else {
            "\n"@
        }),
{
    assert(items.push(item).drop_last() =~= items);
}

/// What the page of a listing shows: its address, its entries, who asks, and what that user may do
/// there.
pub proof fn law_pages_of_listings(
    server: ServerView,
    data: IndexData,
    path: FsPathView,
    paths: Seq<PathItemView>,
    exist: bool,
    user: Option<Seq<char>>,
    perm: AccessPerm,
    password: Option<Seq<char>>,
)
    requires
        server.is_index_data(data, path, paths, exist, user, perm, password),
    ensures
        server.relative(path) is Some,
        data.href@ == "/"@ + server.relative(path)->0,
        data.kind == DataKind::Index,
        data.uri_prefix@ == server.args.uri_prefix,
        data.allow_upload <==> server.args.allow_upload && perm == AccessPerm::ReadWrite,
        data.allow_delete <==> server.args.allow_delete && perm == AccessPerm::ReadWrite,
        data.allow_search == server.args.allow_search,
        data.allow_archive == server.args.allow_archive,
        data.dir_exists == exist,
        data.auth == server.args.has_users,
        data.directory_auth <==> server.directory_auth is Some,
        user is Some <==> data.user is Some,
        user is Some ==> data.user->0@ == user->0,
        password is Some <==> data.directory_password is Some,
        password is Some ==> data.directory_password->0@ == password->0,
        data.paths@.len() == paths.len(),
        forall|i: int| 0 <= i < paths.len() ==> (#[trigger] data.paths@[i])@ == paths[i],
{
    assert(crate::items::item_views(data.paths@).len() == data.paths@.len());
    assert forall|i: int| 0 <= i < paths.len() implies (#[trigger] data.paths@[i])@ == paths[i] by {
        assert(crate::items::item_views(data.paths@)[i] == data.paths@[i]@);
    }
}

/// What the page of a file shows.
pub proof fn law_pages_of_files(
    server: ServerView,
    data: EditData,
    path: FsPathView,
    kind: DataKind,
    readwrite: bool,
    user: Option<Seq<char>>,
    editable: bool,
    password: Option<Seq<char>>,
)
    requires
        server.is_edit_data(data, path, kind, readwrite, user, editable, password),
    ensures
        server.relative(path) is Some,
        data.href@ == "/"@ + server.relative(path)->0,
        data.kind == kind,
        data.uri_prefix@ == server.args.uri_prefix,
        data.allow_upload <==> server.args.allow_upload && readwrite,
        data.allow_delete <==> server.args.allow_delete && readwrite,
        data.auth == server.args.has_users,
        data.editable == editable,
        data.directory_auth <==> server.directory_auth is Some,
        user is Some <==> data.user is Some,
        user is Some ==> data.user->0@ == user->0,
        password is Some <==> data.directory_password is Some,
        password is Some ==> data.directory_password->0@ == password->0,
{
}

} // verus!
