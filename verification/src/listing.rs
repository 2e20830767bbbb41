//! Listing directories: which entries are seen, and what is said of each.
use crate::access::{AccessPaths, AccessPerm};
use crate::items::{
    is_dir_type, item_views, optional_text, PathItem, PathItemView, PathType,
};
use crate::outside::{lower_case, to_lowercase};
use crate::paths::{
    is_excluded_path, normalize_path, normalized, optional_path, temporary_of, FsPath, FsPathView,
};
use crate::send_file::{timestamp, to_timestamp};
use crate::server::{Server, ServerView};
use crate::string_map::StringMap;
use crate::text::{chars_of, contains, ends_with, has_last, occurs_in, string_of, texts};
use vstd::prelude::*;
use vstd::string::*;

verus! {

/// The greatest number of entries that are counted in a directory.
pub const MAX_SUBPATHS_COUNT: u64 = 1000;

/// The pattern that a rule for hidden entries stands for: for directories, a slash at its end does
/// not count.
pub open spec fn rule_pattern(rule: Seq<char>, is_dir: bool) -> Seq<char> {
    if is_dir && has_last(rule, '/') {
        rule.drop_last()
    } else {
        rule
    }
}

/// Whether `glob` says of a rule whether it matches a name.
pub open spec fn rule_says<G: Fn(&str, &str) -> bool>(
    glob: &G,
    rule: Seq<char>,
    name: Seq<char>,
    is_dir: bool,
    matches: bool,
) -> bool {
    exists|p: &str, n: &str|
        p@ == rule_pattern(rule, is_dir) && n@ == name && #[trigger] call_ensures(
            glob,
            (p, n),
            matches,
        )
}

/// Whether `glob` gives one answer for a pattern and a name, whenever it is asked.
pub open spec fn answers<G: Fn(&str, &str) -> bool>(
    glob: &G,
    matching: spec_fn(Seq<char>, Seq<char>) -> bool,
) -> bool {
    forall|p: &str, n: &str, found: bool| #[trigger]
        call_ensures(glob, (p, n), found) ==> found == matching(p@, n@)
}

/// Whether one of the rules hides an entry, by which names patterns match.
pub open spec fn hides(
    matching: spec_fn(Seq<char>, Seq<char>) -> bool,
    rules: Seq<Seq<char>>,
    name: Seq<char>,
    is_dir: bool,
) -> bool {
    exists|i: int|
        0 <= i < rules.len() && matching(rule_pattern(#[trigger] rules[i], is_dir), name)
}

/// Whether a rule hides an entry. `glob` says whether a pattern matches a name.
pub fn is_hidden<G: Fn(&str, &str) -> bool>(
    hidden: &Vec<String>,
    file_name: &str,
    is_dir: bool,
    glob: &G,
) -> (r: bool)
    requires
        forall|p: &str, n: &str| call_requires(glob, (p, n)),
    ensures
        r ==> exists|i: int|
            0 <= i < hidden@.len() && rule_says(
                glob,
                (#[trigger] hidden@[i])@,
                file_name@,
                is_dir,
                true,
            ),
        !r ==> forall|i: int|
            0 <= i < hidden@.len() ==> rule_says(
                glob,
                (#[trigger] hidden@[i])@,
                file_name@,
                is_dir,
                false,
            ),
        forall|matching: spec_fn(Seq<char>, Seq<char>) -> bool| #[trigger]
            answers(glob, matching) ==> r == hides(
                matching,
                texts(hidden@),
                file_name@,
                is_dir,
            ),
{
    let mut i: usize = 0;
    while i < hidden.len()
        invariant
            i <= hidden.len(),
            forall|p: &str, n: &str| call_requires(glob, (p, n)),
            forall|j: int|
                0 <= j < i ==> rule_says(
                    glob,
                    (#[trigger] hidden@[j])@,
                    file_name@,
                    is_dir,
                    false,
                ),
        decreases hidden.len() - i,
    {
        let rule = hidden[i].as_str();
        let found = if is_dir && ends_with(rule, '/') {
            let chars = chars_of(rule);
            let pattern = string_of(&chars, 0, chars.len() - 1);
            assert(pattern@ =~= rule@.drop_last());
            let found = glob(pattern.as_str(), file_name);
            assert(rule_says(glob, rule@, file_name@, is_dir, found));
            found
        } else {
            let found = glob(rule, file_name);
            assert(rule_says(glob, rule@, file_name@, is_dir, found));
            found
        };
        if found {
            proof {
                lemma_rule_hides(hidden@, file_name@, is_dir, glob, i as int);
            }
            return true;
        }
        i = i + 1;
    }
    proof {
        lemma_no_rule_hides(hidden@, file_name@, is_dir, glob);
    }
    false
}

/// A rule that `glob` says matches hides the entry.
proof fn lemma_rule_hides<G: Fn(&str, &str) -> bool>(
    hidden: Seq<String>,
    name: Seq<char>,
    is_dir: bool,
    glob: &G,
    i: int,
)
    requires
        0 <= i < hidden.len(),
        rule_says(glob, hidden[i]@, name, is_dir, true),
    ensures
        forall|matching: spec_fn(Seq<char>, Seq<char>) -> bool| #[trigger]
            answers(glob, matching) ==> hides(matching, texts(hidden), name, is_dir),
{
    assert forall|matching: spec_fn(Seq<char>, Seq<char>) -> bool| #[trigger]
        answers(glob, matching) implies hides(matching, texts(hidden), name, is_dir) by {
        assert(matching(rule_pattern(texts(hidden)[i], is_dir), name));
    }
}

/// Where `glob` says of every rule that it does not match, none hides the entry.
proof fn lemma_no_rule_hides<G: Fn(&str, &str) -> bool>(
    hidden: Seq<String>,
    name: Seq<char>,
    is_dir: bool,
    glob: &G,
)
    requires
        forall|i: int|
            0 <= i < hidden.len() ==> rule_says(
                glob,
                (#[trigger] hidden[i])@,
                name,
                is_dir,
                false,
            ),
    ensures
        forall|matching: spec_fn(Seq<char>, Seq<char>) -> bool| #[trigger]
            answers(glob, matching) ==> !hides(matching, texts(hidden), name, is_dir),
{
    assert forall|matching: spec_fn(Seq<char>, Seq<char>) -> bool| #[trigger]
        answers(glob, matching) implies !hides(matching, texts(hidden), name, is_dir) by {
        assert forall|i: int| 0 <= i < texts(hidden).len() implies !matching(
            rule_pattern(#[trigger] texts(hidden)[i], is_dir),
            name,
        ) by {
            assert(rule_says(glob, hidden[i]@, name, is_dir, false));
        }
    }
}

/// A list of rules made of two lists hides what either hides, in whatever order they come, and no
/// rules hide nothing.
pub proof fn law_rules_add_up(
    matching: spec_fn(Seq<char>, Seq<char>) -> bool,
    a: Seq<Seq<char>>,
    b: Seq<Seq<char>>,
    name: Seq<char>,
    is_dir: bool,
)
    ensures
        hides(matching, a + b, name, is_dir) == (hides(matching, a, name, is_dir) || hides(
            matching,
            b,
            name,
            is_dir,
        )),
        hides(matching, a + b, name, is_dir) == hides(matching, b + a, name, is_dir),
        !hides(matching, Seq::empty(), name, is_dir),
{
    lemma_either_hides(matching, a, b, name, is_dir);
    lemma_either_hides(matching, b, a, name, is_dir);
}

/// A list of rules made of two lists hides what either hides.
proof fn lemma_either_hides(
    matching: spec_fn(Seq<char>, Seq<char>) -> bool,
    a: Seq<Seq<char>>,
    b: Seq<Seq<char>>,
    name: Seq<char>,
    is_dir: bool,
)
    ensures
        hides(matching, a + b, name, is_dir) == (hides(matching, a, name, is_dir) || hides(
            matching,
            b,
            name,
            is_dir,
        )),
{
    if hides(matching, a + b, name, is_dir) {
        let i = choose|i: int|
            0 <= i < (a + b).len() && matching(rule_pattern(#[trigger] (a + b)[i], is_dir), name);
        if i < a.len() {
            assert((a + b)[i] == a[i]);
        } else {
            assert((a + b)[i] == b[i - a.len()]);
        }
    }
    if hides(matching, a, name, is_dir) {
        let i = choose|i: int|
            0 <= i < a.len() && matching(rule_pattern(#[trigger] a[i], is_dir), name);
        assert((a + b)[i] == a[i]);
    }
    if hides(matching, b, name, is_dir) {
        let i = choose|i: int|
            0 <= i < b.len() && matching(rule_pattern(#[trigger] b[i], is_dir), name);
        assert((a + b)[a.len() + i] == b[i]);
    }
}

/// How many entries are counted when the given ones have been seen: the hidden ones do not count, and
/// counting stops at the greatest number.
pub open spec fn counted(hidden: Seq<bool>) -> u64
    decreases hidden.len(),
{
    if hidden.len() == 0 {
        0
    } else {
        count_next(counted(hidden.drop_last()), hidden.last())
    }
}

/// The count after one more entry.
pub open spec fn count_next(count: u64, hidden: bool) -> u64 {
    if hidden || count >= MAX_SUBPATHS_COUNT {
        count
    } else {
        (count + 1) as u64
    }
}

/// How many entries are not hidden.
pub open spec fn visible(hidden: Seq<bool>) -> nat
    decreases hidden.len(),
{
    if hidden.len() == 0 {
        0
    } else if hidden.last() {
        visible(hidden.drop_last())
    } else {
        visible(hidden.drop_last()) + 1
    }
}

/// The count after one more entry, and whether counting stops there.
pub fn count_subpath(count: u64, hidden: bool) -> (r: (u64, bool))
    ensures
        r.0 == count_next(count, hidden),
        r.1 == (!hidden && r.0 >= MAX_SUBPATHS_COUNT),
{
    if hidden {
        return (count, false);
    }
    if count >= MAX_SUBPATHS_COUNT {
        return (count, true);
    }
    let next: u64 = count + 1;
    (next, next >= MAX_SUBPATHS_COUNT)
}

/// The count of a directory is the number of its entries that are not hidden, or the greatest number
/// where there are more.
pub proof fn law_count_is_bounded(hidden: Seq<bool>)
    ensures
        counted(hidden) == if visible(hidden) < MAX_SUBPATHS_COUNT {
            visible(hidden)
        } else {
            MAX_SUBPATHS_COUNT as nat
        },
    decreases hidden.len(),
{
    if hidden.len() > 0 {
        law_count_is_bounded(hidden.drop_last());
    }
}

/// What is found at the place of an entry.
#[derive(Debug, Clone, Copy)]
pub struct EntryFacts {
    pub is_symlink: bool,
    pub is_dir: bool,
    /// Whether the place lies in the served directory, with all links followed.
    pub contained: bool,
    /// When it was last modified, in seconds and nanoseconds from the start of 1970; nothing where
    /// that is not known, or was before.
    pub mtime: Option<(u64, u32)>,
    /// The length of a file; of a directory, how many entries are counted in it.
    pub size: u64,
}

/// The type of an entry.
pub open spec fn entry_type(is_symlink: bool, is_dir: bool) -> PathType {
    if is_symlink {
        if is_dir {
            PathType::SymlinkDir
        } else {
            PathType::SymlinkFile
        }
    } else {
        if is_dir {
            PathType::Dir
        } else {
            PathType::File
        }
    }
}

/// What listing an entry gives.
#[derive(Debug)]
pub enum ItemOutcome {
    /// The entry cannot be listed.
    Failed,
    /// The entry is a link out of the served directory, and not listed.
    Skipped,
    Item(PathItem),
}

/// What listing an entry gives.
pub enum ItemOutcomeView {
    Failed,
    Skipped,
    Item(PathItemView),
}

impl View for ItemOutcome {
    type V = ItemOutcomeView;

    open spec fn view(&self) -> ItemOutcomeView {
        match self {
            ItemOutcome::Failed => ItemOutcomeView::Failed,
            ItemOutcome::Skipped => ItemOutcomeView::Skipped,
            ItemOutcome::Item(item) => ItemOutcomeView::Item(item@),
        }
    }
}

impl ServerView {
    /// Whether an entry is a link out of the served directory that is not followed.
    pub open spec fn skips(self, facts: EntryFacts) -> bool {
        !self.args.allow_symlink && facts.is_symlink && !facts.contained
    }

    /// What listing an entry below a base gives. `password` is that of the directory that protects
    /// it.
    pub open spec fn item(
        self,
        path: FsPathView,
        base: FsPathView,
        facts: EntryFacts,
        password: Option<Seq<char>>,
    ) -> ItemOutcomeView {
        if self.skips(facts) {
            ItemOutcomeView::Skipped
        } else if !path.starts_with(base) || (self.directory_auth is Some && !path.starts_with(
            self.args.serve_path,
        )) {
            ItemOutcomeView::Failed
        } else {
            ItemOutcomeView::Item(
                PathItemView {
                    path_type: entry_type(facts.is_symlink, facts.is_dir),
                    name: normalized(path.strip_prefix(base)->0.to_text(), false),
                    mtime: timestamp(facts.mtime),
                    size: facts.size,
                    directory_password: if self.directory_auth is Some {
                        password
                    } else {
                        None
                    },
                },
            )
        }
    }
}

/// Which places are listed for a directory.
#[derive(Debug)]
pub enum Listed {
    /// All entries of the directory.
    All,
    /// These places.
    Places(Vec<FsPath>),
}

/// The views of a list of paths.
pub open spec fn path_views(paths: Seq<FsPath>) -> Seq<FsPathView> {
    paths.map_values(|p: FsPath| p@)
}

impl Server {
    /// Lists an entry below a base. `password` is that of the directory that protects it.
    pub fn to_pathitem(
        &self,
        path: &FsPath,
        base_path: &FsPath,
        facts: EntryFacts,
        password: Option<String>,
    ) -> (r: ItemOutcome)
        ensures
            r@ == self@.item(path@, base_path@, facts, optional_text(password)),
    {
        if !self.args.allow_symlink && facts.is_symlink && !facts.contained {
            return ItemOutcome::Skipped;
        }
        let path_type: PathType = match (facts.is_symlink, facts.is_dir) {
            (true, true) => PathType::SymlinkDir,
            (false, true) => PathType::Dir,
            (true, false) => PathType::SymlinkFile,
            (false, false) => PathType::File,
        };
        let name = match path.strip_prefix(base_path) {
            Some(rest) => match rest.to_text() {
                Some(text) => normalize_path(Some(text.as_str()), false),
                None => normalize_path(None, false),
            },
            None => {
                return ItemOutcome::Failed;
            },
        };
        let directory_password: Option<String> = if self.directory_auth.is_some() {
            if !path.starts_with(&self.args.serve_path) {
                return ItemOutcome::Failed;
            }
            password
        } else {
            None
        };
        ItemOutcome::Item(
            PathItem {
                path_type,
                name,
                mtime: to_timestamp(facts.mtime),
                size: facts.size,
                directory_password,
            },
        )
    }

    /// Adds an entry to a listing, unless it is the file that stores the passwords, could not be
    /// listed, or is hidden.
    pub fn add_pathitem<G: Fn(&str, &str) -> bool>(
        &self,
        paths: &mut Vec<PathItem>,
        is_metadata: bool,
        base_name: &str,
        item: ItemOutcome,
        glob: &G,
    )
        requires
            forall|p: &str, n: &str| call_requires(glob, (p, n)),
        ensures
            is_metadata || !(item is Item) ==> item_views(final(paths)@) == item_views(old(paths)@),
            !is_metadata ==> (item matches ItemOutcome::Item(entry) ==> {
                ||| {
                    &&& item_views(final(paths)@) == item_views(old(paths)@).push(entry@)
                    &&& forall|i: int|
                        0 <= i < self.args.hidden@.len() ==> rule_says(
                            glob,
                            (#[trigger] self.args.hidden@[i])@,
                            base_name@,
                            is_dir_type(entry.path_type),
                            false,
                        )
                }
                ||| {
                    &&& item_views(final(paths)@) == item_views(old(paths)@)
                    &&& exists|i: int|
                        0 <= i < self.args.hidden@.len() && rule_says(
                            glob,
                            (#[trigger] self.args.hidden@[i])@,
                            base_name@,
                            is_dir_type(entry.path_type),
                            true,
                        )
                }
            }),
    {
        if is_metadata {
            return ;
        }
        match item {
            ItemOutcome::Item(entry) => {
                if is_hidden(&self.args.hidden, base_name, entry.is_dir(), glob) {
                    return ;
                }
                let ghost before = item_views(paths@);
                paths.push(entry);
                assert(item_views(paths@) =~= before.push(entry@));
            },
            _ => {},
        }
    }

    /// Which places are listed for a directory: where only the entries that lead to an accessible
    /// path are seen, those.
    pub fn list_dir(&self, entry_path: &FsPath, access: &AccessPaths) -> (r: Listed)
        ensures
            access@.perm != AccessPerm::IndexOnly ==> r is All,
            access@.perm == AccessPerm::IndexOnly ==> (r matches Listed::Places(places)
                && path_views(places@) == access@.child_names.map_values(
                |name: Seq<char>| entry_path@.join(name),
            )),
    {
        if !access.perm.indexonly() {
            return Listed::All;
        }
        let ghost wanted = access@.child_names.map_values(|name: Seq<char>| entry_path@.join(name));
        let mut places: Vec<FsPath> = Vec::new();
        let mut i: usize = 0;
        assert(path_views(places@) =~= wanted.take(0));
        while i < access.child_names.len()
            invariant
                i <= access.child_names.len(),
                wanted == access@.child_names.map_values(|name: Seq<char>| entry_path@.join(name)),
                path_views(places@) == wanted.take(i as int),
            decreases access.child_names.len() - i,
        {
            let ghost before = path_views(places@);
            assert(access@.child_names[i as int] == access.child_names@[i as int]@);
            places.push(entry_path.join(access.child_names[i].as_str()));
            proof {
                assert(path_views(places@) =~= before.push(wanted[i as int]));
                assert(wanted.take(i as int + 1) =~= wanted.take(i as int).push(wanted[i as int]));
            }
            i = i + 1;
        }
        assert(wanted.take(i as int) =~= wanted);
        Listed::Places(places)
    }
}

/// What is done with an entry that is found while a tree is walked.
#[derive(Debug, Clone, Copy, PartialEq, Eq, Structural)]
pub enum Verdict {
    /// The entry is collected.
    Take,
    /// The entry is passed over.
    Pass,
    /// The entry and all below it are passed over.
    PassTree,
}

/// Whether an entry is the excluded file, or a temporary file of it.
pub open spec fn excluded_by(canonical: Option<FsPathView>, excluded: Option<FsPathView>) -> bool {
    canonical is Some && excluded is Some && (canonical->0 == excluded->0 || temporary_of(
        canonical->0,
        excluded->0,
    ))
}

/// What is done with an entry that is found while a tree is walked. `canonical` is where it is with
/// all links followed, `excluded` is the file that stores the passwords.
pub open spec fn verdict(
    hidden: bool,
    is_dir: bool,
    canonical: Option<FsPathView>,
    excluded: Option<FsPathView>,
    follow_symlinks: bool,
    serve_path: FsPathView,
    included: bool,
) -> Verdict {
    let outside = !follow_symlinks && !(canonical is Some && canonical->0.starts_with(serve_path));
    if hidden || excluded_by(canonical, excluded) || outside {
        if is_dir {
            Verdict::PassTree
        } else {
            Verdict::Pass
        }
    } else if included {
        Verdict::Take
    } else {
        Verdict::Pass
    }
}

/// Whether it has to be known where the entries of a tree are with all links followed.
pub fn needs_canonical(excluded: &Option<FsPath>, follow_symlinks: bool) -> (r: bool)
    ensures
        r == (*excluded is Some || !follow_symlinks),
{
    excluded.is_some() || !follow_symlinks
}

/// What is done with an entry that is found while a tree is walked.
fn judge_entry(
    hidden: bool,
    is_dir: bool,
    canonical: &Option<FsPath>,
    excluded: &Option<FsPath>,
    follow_symlinks: bool,
    serve_path: &FsPath,
    included: bool,
) -> (r: Verdict)
    ensures
        r == verdict(
            hidden,
            is_dir,
            optional_path(*canonical),
            optional_path(*excluded),
            follow_symlinks,
            serve_path@,
            included,
        ),
{
    let pass: Verdict = if is_dir {
        Verdict::PassTree
    } else {
        Verdict::Pass
    };
    if hidden {
        return pass;
    }
    match (canonical, excluded) {
        (Some(path), Some(excluded)) => {
            if is_excluded_path(path, excluded) {
                return pass;
            }
        },
        _ => {},
    }
    if !follow_symlinks {
        let inside = match canonical {
            Some(path) => path.starts_with(serve_path),
            None => false,
        };
        if !inside {
            return pass;
        }
    }
    if !included {
        return Verdict::Pass;
    }
    Verdict::Take
}

/// An entry that is found while a tree is walked.
#[derive(Debug)]
pub struct WalkEntry {
    pub path: FsPath,
    pub is_dir: bool,
    /// Whether a rule hides it.
    pub hidden: bool,
    /// Where it is with all links followed, where that is known.
    pub canonical: Option<FsPath>,
    /// Whether it is what the walk looks for.
    pub included: bool,
}

/// Collects an entry that is found while a tree is walked, or passes it over, and says which.
pub fn collect_entry(
    paths: &mut Vec<FsPath>,
    entry: WalkEntry,
    excluded: &Option<FsPath>,
    follow_symlinks: bool,
    serve_path: &FsPath,
) -> (r: Verdict)
    ensures
        r == verdict(
            entry.hidden,
            entry.is_dir,
            optional_path(entry.canonical),
            optional_path(*excluded),
            follow_symlinks,
            serve_path@,
            entry.included,
        ),
        path_views(final(paths)@) == if r == Verdict::Take {
            path_views(old(paths)@).push(entry.path@)
        } else {
            path_views(old(paths)@)
        },
{
    let verdict = judge_entry(
        entry.hidden,
        entry.is_dir,
        &entry.canonical,
        excluded,
        follow_symlinks,
        serve_path,
        entry.included,
    );
    if verdict == Verdict::Take {
        let ghost before = path_views(paths@);
        paths.push(entry.path);
        assert(path_views(paths@) =~= before.push(entry.path@));
    }
    verdict
}

/// A collected entry is not hidden, is not the file that stores the passwords nor a temporary file of
/// it, and lies in the served directory unless links out of it are followed.
pub proof fn law_collected_entries_are_allowed(
    hidden: bool,
    is_dir: bool,
    canonical: Option<FsPathView>,
    excluded: Option<FsPathView>,
    follow_symlinks: bool,
    serve_path: FsPathView,
    included: bool,
)
    requires
        verdict(hidden, is_dir, canonical, excluded, follow_symlinks, serve_path, included)
            == Verdict::Take,
    ensures
        !hidden,
        included,
        !excluded_by(canonical, excluded),
        follow_symlinks || canonical is Some && canonical->0.starts_with(serve_path),
{
}

/// What a request to search a directory comes to.
#[derive(Debug)]
pub enum Search {
    /// The query does not say what to look for.
    Missing,
    /// There is nothing to look for: the directory is listed.
    List,
    /// Look for names that hold the text.
    Find(String),
}

/// What a request to search a directory comes to.
pub enum SearchView {
    Missing,
    List,
    Find(Seq<char>),
}

impl View for Search {
    type V = SearchView;

    open spec fn view(&self) -> SearchView {
        match self {
            Search::Missing => SearchView::Missing,
            Search::List => SearchView::List,
            Search::Find(text) => SearchView::Find(text@),
        }
    }
}

/// What looking for a text comes to.
pub open spec fn search_for(text: Option<Seq<char>>) -> SearchView {
    match text {
        None => SearchView::Missing,
        Some(text) => if text.len() == 0 {
            SearchView::List
        } else {
            SearchView::Find(text)
        },
    }
}

/// What a request to search a directory comes to: the text of the query, in lower case, is looked for.
pub open spec fn search_of(query: Map<Seq<char>, Seq<char>>) -> SearchView {
    search_for(
        if query.contains_key("q"@) {
            Some(lower_case(query["q"@]))
        } else {
            None
        },
    )
}

/// What looking for a text comes to.
pub fn look_for(text: Option<String>) -> (r: Search)
    ensures
        r@ == search_for(optional_text(text)),
{
    match text {
        None => Search::Missing,
        Some(text) => if text.as_str().is_empty() {
            Search::List
        } else {
            Search::Find(text)
        },
    }
}

/// What a request to search a directory comes to.
pub fn handle_search_dir(query: &StringMap) -> (r: Search)
    ensures
        r@ == search_of(query@),
{
    look_for(
        match query.get("q") {
            Some(text) => Some(to_lowercase(text)),
            None => None,
        },
    )
}

/// Whether the entries of a directory are read to list it: not for the head only, nor where there is
/// no directory.
pub fn handle_ls_dir(head_only: bool, exist: bool) -> (r: bool)
    ensures
        r == (!head_only && exist),
{
    !head_only && exist
}

/// Whether a search finds a name: the name in lower case holds the text.
pub fn matches_search(name: &str, search: &str) -> (r: bool)
    ensures
        r == occurs_in(search@, lower_case(name@)),
{
    let lower = to_lowercase(name);
    contains(lower.as_str(), search)
}

/// The name of a file in the archive of a directory, where it has one.
pub fn archive_name(path: &FsPath, dir: &FsPath) -> (r: Option<String>)
    ensures
        optional_text(r) == match path@.strip_prefix(dir@) {
            Some(rest) => rest.to_text(),
            None => None,
        },
{
    match path.strip_prefix(dir) {
        Some(rest) => rest.to_text(),
        None => None,
    }
}

} // verus!
