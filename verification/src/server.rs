//! The server: its settings, and how request paths become places below the served directory.
use crate::assets::{assets_revision, revision, AssetFiles};
use crate::directory_auth::{
    clean_name, loaded, valid_path, AuthError, DirectoryAuth, DirectoryAuthView, DirectorySecrets,
};
use crate::paths::{
    is_metadata_path, leads_to_metadata, normalize_path, normalized, optional_path, proper_names,
    text_parts, FsPath, FsPathView, PartView,
};
use crate::response::{add_cors, Response, ResponseView};
use crate::text::{
    after_prefix, chars_of, join, joined, left_trimmed, lemma_pieces_free, lemma_pieces_nonempty,
    lemma_pieces_of_joined, lemma_pieces_skip, pieces, same, split, string_of,
    strip_prefix, texts, trim_matches, trim_start, trimmed,
};
use vstd::prelude::*;
use vstd::string::*;

verus! {

/// The settings of the server.
#[derive(Debug)]
pub struct Args {
    pub serve_path: FsPath,
    pub path_is_file: bool,
    pub path_prefix: String,
    pub uri_prefix: String,
    pub hidden: Vec<String>,
    pub directory_auth_file: Option<FsPath>,
    pub has_users: bool,
    pub allow_upload: bool,
    pub allow_delete: bool,
    pub allow_search: bool,
    pub allow_symlink: bool,
    pub allow_archive: bool,
    pub allow_hash: bool,
    pub enable_cors: bool,
    pub render_index: bool,
    pub render_spa: bool,
    pub render_try_index: bool,
    pub assets: Option<FsPath>,
    pub error_page: Option<FsPath>,
}

/// What the settings of the server are.
pub struct ArgsView {
    pub serve_path: FsPathView,
    pub path_is_file: bool,
    pub path_prefix: Seq<char>,
    pub uri_prefix: Seq<char>,
    pub hidden: Seq<Seq<char>>,
    pub directory_auth_file: Option<FsPathView>,
    pub has_users: bool,
    pub allow_upload: bool,
    pub allow_delete: bool,
    pub allow_search: bool,
    pub allow_symlink: bool,
    pub allow_archive: bool,
    pub allow_hash: bool,
    pub enable_cors: bool,
    pub render_index: bool,
    pub render_spa: bool,
    pub render_try_index: bool,
    pub assets: Option<FsPathView>,
    pub error_page: Option<FsPathView>,
}

impl View for Args {
    type V = ArgsView;

    open spec fn view(&self) -> ArgsView {
        ArgsView {
            serve_path: self.serve_path@,
            path_is_file: self.path_is_file,
            path_prefix: self.path_prefix@,
            uri_prefix: self.uri_prefix@,
            hidden: texts(self.hidden@),
            directory_auth_file: optional_path(self.directory_auth_file),
            has_users: self.has_users,
            allow_upload: self.allow_upload,
            allow_delete: self.allow_delete,
            allow_search: self.allow_search,
            allow_symlink: self.allow_symlink,
            allow_archive: self.allow_archive,
            allow_hash: self.allow_hash,
            enable_cors: self.enable_cors,
            render_index: self.render_index,
            render_spa: self.render_spa,
            render_try_index: self.render_try_index,
            assets: optional_path(self.assets),
            error_page: optional_path(self.error_page),
        }
    }
}

/// The server.
pub struct Server {
    pub args: Args,
    pub directory_auth: Option<DirectoryAuth>,
    pub assets_prefix: String,
    pub html: String,
    pub single_file_req_paths: Vec<String>,
}

/// What the server is.
pub struct ServerView {
    pub args: ArgsView,
    pub directory_auth: Option<DirectoryAuthView>,
    pub assets_prefix: Seq<char>,
    pub html: Seq<char>,
    pub single_file_req_paths: Seq<Seq<char>>,
}

/// The passwords of directories, where there are any.
pub open spec fn optional_auth(auth: Option<DirectoryAuth>) -> Option<DirectoryAuthView> {
    match auth {
        Some(a) => Some(a@),
        None => None,
    }
}

impl View for Server {
    type V = ServerView;

    open spec fn view(&self) -> ServerView {
        ServerView {
            args: self.args@,
            directory_auth: optional_auth(self.directory_auth),
            assets_prefix: self.assets_prefix@,
            html: self.html@,
            single_file_req_paths: texts(self.single_file_req_paths@),
        }
    }
}

/// Whether a name is that of a drive.
pub open spec fn is_drive(name: Seq<char>) -> bool {
    name.len() == 2 && name[1] == ':' && ('a' <= name[0] <= 'z' || 'A' <= name[0] <= 'Z')
}

/// The names in a request path: nothing where one of them leads out of its directory.
pub open spec fn path_components(path: Seq<char>) -> Option<Seq<Seq<char>>> {
    let names = pieces(trimmed(path, '/'), '/');
    if names[0] == seq!['.'] || names.contains(seq!['.', '.']) {
        None
    } else {
        Some(proper_names(names))
    }
}

/// The relative path that names give below the prefix that requests are to have.
pub open spec fn below_prefix(names: Seq<Seq<char>>, prefix: Seq<char>) -> Option<Seq<char>> {
    if prefix.len() == 0 {
        Some(joined(names, '/'))
    } else {
        match after_prefix(joined(names, '/'), left_trimmed(prefix, '/')) {
            Some(rest) => Some(trimmed(rest, '/')),
            None => None,
        }
    }
}

/// The names of components that all are ordinary.
pub open spec fn ordinary_names(components: Seq<Option<Seq<char>>>, windows: bool) -> Option<
    Seq<Seq<char>>,
> {
    if forall|i: int|
        0 <= i < components.len() ==> (#[trigger] components[i]) is Some && !(windows && is_drive(
            components[i]->0,
        )) {
        Some(components.map_values(|c: Option<Seq<char>>| c->0))
    } else {
        None
    }
}

/// The texts of components.
pub open spec fn component_texts(components: Seq<Option<String>>) -> Seq<Option<Seq<char>>> {
    components.map_values(|c: Option<String>| crate::items::optional_text(c))
}

impl ServerView {
    /// The relative path that a decoded request path stands for.
    pub open spec fn resolve(self, decoded: Option<Seq<char>>) -> Option<Seq<char>> {
        match decoded {
            Some(path) => match path_components(path) {
                Some(names) => below_prefix(names, self.args.path_prefix),
                None => None,
            },
            None => None,
        }
    }

    /// The place that a relative path leads to.
    pub open spec fn place(self, relative: Seq<char>) -> FsPathView {
        if relative.len() == 0 {
            self.args.serve_path
        } else {
            self.args.serve_path.join(relative)
        }
    }

    /// The relative path of a place, where it lies below the served directory.
    pub open spec fn relative(self, path: FsPathView) -> Option<Seq<char>> {
        match path.strip_prefix(self.args.serve_path) {
            Some(rest) => Some(normalized(rest.to_text(), false)),
            None => None,
        }
    }

    /// Whether a place is the file that stores the passwords, or a temporary file of it.
    pub open spec fn is_auth_metadata(
        self,
        path: FsPathView,
        canonical: Option<FsPathView>,
        canonical_metadata: Option<FsPathView>,
    ) -> bool {
        match self.directory_auth {
            Some(auth) => leads_to_metadata(path, auth.file, canonical, canonical_metadata),
            None => false,
        }
    }
}

/// The first part of the paths at which the files of the user interface are served.
pub open spec fn assets_prefix_of(version: Seq<char>, assets_revision: Seq<char>) -> Seq<char> {
    "__dufs_v"@ + version + "_"@ + assets_revision + "__/"@
}

/// The passwords of directories that the settings ask for.
pub open spec fn auth_of(args: ArgsView, stored: Option<DirectorySecrets>) -> Result<
    Option<DirectoryAuthView>,
    AuthError,
> {
    match args.directory_auth_file {
        Some(file) => match loaded(args.serve_path, file, stored) {
            Ok(auth) => Ok(Some(auth)),
            Err(e) => Err(e),
        },
        None => Ok(None),
    }
}

/// What the search for the nearest existing place wants to know.
#[derive(Debug)]
pub enum RootStep {
    /// The answer is there: whether the path leads outside.
    Settled(bool),
    /// Whether something exists at the place.
    Look(FsPath),
    /// Where the place is, with all links followed.
    Resolve(FsPath),
}

/// What the search for the nearest existing place wants to know.
pub enum RootStepView {
    Settled(bool),
    Look(FsPathView),
    Resolve(FsPathView),
}

impl View for RootStep {
    type V = RootStepView;

    open spec fn view(&self) -> RootStepView {
        match self {
            RootStep::Settled(b) => RootStepView::Settled(*b),
            RootStep::Look(p) => RootStepView::Look(p@),
            RootStep::Resolve(p) => RootStepView::Resolve(p@),
        }
    }
}

/// What follows when it is known whether something exists at a place.
pub open spec fn looked(place: FsPathView, found: bool) -> RootStepView {
    if found {
        RootStepView::Resolve(place)
    } else {
        match place.parent() {
            Some(parent) => RootStepView::Look(parent),
            None => RootStepView::Settled(true),
        }
    }
}

impl RootStep {
    /// What follows when it is known whether something exists at the place that was looked at.
    pub fn looked(place: &FsPath, found: bool) -> (r: RootStep)
        ensures
            r@ == looked(place@, found),
    {
        if found {
            RootStep::Resolve(place.copy())
        } else {
            match place.parent() {
                Some(parent) => RootStep::Look(parent),
                None => RootStep::Settled(true),
            }
        }
    }
}

/// The names in a request path.
fn component_names(path: &str) -> (r: Option<Vec<String>>)
    ensures
        match r {
            Some(names) => path_components(path@) == Some(texts(names@)),
            None => path_components(path@) is None,
        },
{
    let bare = trim_matches(path, '/');
    let all = split(bare.as_str(), '/');
    let ghost names = texts(all@);
    proof {
        reveal_strlit(".");
        reveal_strlit("..");
        assert("."@ =~= seq!['.']);
        assert(".."@ =~= seq!['.', '.']);
        lemma_pieces_nonempty(bare@, '/');
        assert(names[0] == all@[0]@);
    }
    if same(all[0].as_str(), ".") {
        return None;
    }
    let mut out: Vec<String> = Vec::new();
    let mut i: usize = 0;
    assert(texts(out@) =~= proper_names(names.take(0)));
    while i < all.len()
        invariant
            i <= all.len(),
            names == texts(all@),
            names == pieces(trimmed(path@, '/'), '/'),
            "."@ == seq!['.'],
            ".."@ == seq!['.', '.'],
            texts(out@) == proper_names(names.take(i as int)),
            forall|j: int| 0 <= j < i ==> #[trigger] names[j] != seq!['.', '.'],
        decreases all.len() - i,
    {
        proof {
            assert(names[i as int] == all@[i as int]@);
            assert(names.take(i as int + 1).drop_last() =~= names.take(i as int));
        }
        if same(all[i].as_str(), "..") {
            assert(names.contains(seq!['.', '.']));
            return None;
        }
        if !(all[i].as_str().is_empty() || same(all[i].as_str(), ".")) {
            let ghost before = texts(out@);
            out.push(all[i].clone());
            assert(texts(out@) =~= before.push(names[i as int]));
        }
        i = i + 1;
    }
    assert(names.take(i as int) =~= names);
    Some(out)
}

/// The relative path that names give below the prefix that requests are to have.
fn place_below(names: &Vec<String>, prefix: &str) -> (r: Option<String>)
    ensures
        match r {
            Some(path) => below_prefix(texts(names@), prefix@) == Some(path@),
            None => below_prefix(texts(names@), prefix@) is None,
        },
{
    let path = join(names, '/');
    if prefix.is_empty() {
        return Some(path);
    }
    let prefix = trim_start(prefix, '/');
    match strip_prefix(path.as_str(), prefix.as_str()) {
        Some(rest) => Some(trim_matches(rest.as_str(), '/')),
        None => None,
    }
}

impl Server {
    /// The server with the given settings. `stored` is what the file of the passwords holds, `assets`
    /// are the files of the user interface and `html` is its page; `version` is the program's,
    /// `file_name` the name of the served file or directory.
    pub fn init<E: Fn(&str) -> String>(
        args: Args,
        stored: Option<DirectorySecrets>,
        assets: &AssetFiles,
        html: String,
        version: &str,
        file_name: &str,
        encode_uri: &E,
    ) -> (r: Result<Server, AuthError>)
        requires
            forall|p: &str| call_requires(encode_uri, (p,)),
            args.path_is_file ==> args.uri_prefix@.len() > 0 && args.uri_prefix@.last() <= '\u{7f}',
        ensures
            match auth_of(args@, stored) {
                Err(e) => r is Err && r->Err_0 == e,
                Ok(auth) => {
                    &&& r is Ok
                    &&& r->Ok_0@.args == args@
                    &&& r->Ok_0@.directory_auth == auth
                    &&& r->Ok_0@.html == html@
                    &&& r->Ok_0@.assets_prefix == assets_prefix_of(version@, revision(assets@))
                    &&& if args.path_is_file {
                        exists|p: &str, e: String|
                            p@ == args.uri_prefix@ + file_name@ && #[trigger] call_ensures(
                                encode_uri,
                                (p,),
                                e,
                            ) && r->Ok_0@.single_file_req_paths == seq![
                                args.uri_prefix@,
                                args.uri_prefix@.drop_last(),
                                e@,
                            ]
                    } else {
                        r->Ok_0@.single_file_req_paths == Seq::<Seq<char>>::empty()
                    }
                },
            },
    {
        let directory_auth: Option<DirectoryAuth> = match &args.directory_auth_file {
            Some(file) => match DirectoryAuth::load(args.serve_path.copy(), file.copy(), stored) {
                Ok(auth) => Some(auth),
                Err(e) => {
                    return Err(e);
                },
            },
            None => None,
        };
        let revision = assets_revision(assets);
        let mut assets_prefix = String::from_str("__dufs_v");
        assets_prefix.append(version);
        assets_prefix.append("_");
        assets_prefix.append(revision.as_str());
        assets_prefix.append("__/");
        let mut single_file_req_paths: Vec<String> = Vec::new();
        if args.path_is_file {
            let prefix = chars_of(args.uri_prefix.as_str());
            let mut full = args.uri_prefix.clone();
            full.append(file_name);
            let encoded = encode_uri(full.as_str());
            let ghost name = encoded@;
            single_file_req_paths.push(args.uri_prefix.clone());
            single_file_req_paths.push(string_of(&prefix, 0, prefix.len() - 1));
            single_file_req_paths.push(encoded);
            proof {
                assert(prefix@.subrange(0, prefix@.len() - 1) =~= args.uri_prefix@.drop_last());
                assert(texts(single_file_req_paths@) =~= seq![
                    args.uri_prefix@,
                    args.uri_prefix@.drop_last(),
                    name,
                ]);
            }
        } else {
            assert(texts(single_file_req_paths@) =~= Seq::<Seq<char>>::empty());
        }
        Ok(Server { args, directory_auth, assets_prefix, html, single_file_req_paths })
    }

    /// The relative path that a request path stands for, given what decoding it gave; nothing where
    /// it leads elsewhere.
    pub fn resolve_path(&self, decoded: Option<&str>) -> (r: Option<String>)
        ensures
            match r {
                Some(path) => self@.resolve(
                    match decoded {
                        Some(s) => Some(s@),
                        None => None,
                    },
                ) == Some(path@),
                None => self@.resolve(
                    match decoded {
                        Some(s) => Some(s@),
                        None => None,
                    },
                ) is None,
            },
    {
        match decoded {
            Some(path) => match component_names(path) {
                Some(names) => place_below(&names, self.args.path_prefix.as_str()),
                None => None,
            },
            None => None,
        }
    }

    /// The relative path that the components of a request path stand for: each is a name, or
    /// nothing where it is not an ordinary one.
    pub fn resolve_components(&self, components: &Vec<Option<String>>, windows: bool) -> (r: Option<
        String,
    >)
        ensures
            match ordinary_names(component_texts(components@), windows) {
                Some(names) => match r {
                    Some(path) => below_prefix(names, self@.args.path_prefix) == Some(path@),
                    None => below_prefix(names, self@.args.path_prefix) is None,
                },
                None => r is None,
            },
    {
        let ghost all = component_texts(components@);
        let mut names: Vec<String> = Vec::new();
        let mut i: usize = 0;
        while i < components.len()
            invariant
                i <= components.len(),
                all == component_texts(components@),
                names@.len() == i,
                forall|j: int|
                    0 <= j < i ==> (#[trigger] all[j]) is Some && !(windows && is_drive(all[j]->0)),
                forall|j: int| 0 <= j < i ==> (#[trigger] names@[j])@ == all[j]->0,
            decreases components.len() - i,
        {
            assert(all[i as int] == crate::items::optional_text(components@[i as int]));
            match &components[i] {
                Some(name) => {
                    if windows {
                        let chars = chars_of(name.as_str());
                        if chars.len() == 2 && chars[1] == ':' && (('a' <= chars[0] && chars[0]
                            <= 'z') || ('A' <= chars[0] && chars[0] <= 'Z')) {
                            return None;
                        }
                    }
                    names.push(name.clone());
                },
                None => {
                    return None;
                },
            }
            i = i + 1;
        }
        assert(texts(names@) =~= all.map_values(|c: Option<Seq<char>>| c->0));
        place_below(&names, self.args.path_prefix.as_str())
    }

    /// The place that a relative path leads to.
    pub fn join_path(&self, path: &str) -> (r: Option<FsPath>)
        ensures
            r is Some,
            r->0@ == self@.place(path@),
    {
        if path.is_empty() {
            return Some(self.args.serve_path.copy());
        }
        Some(self.args.serve_path.join(path))
    }

    /// The relative path of a place, where it lies below the served directory.
    pub fn relative_path(&self, path: &FsPath) -> (r: Option<String>)
        ensures
            match r {
                Some(s) => self@.relative(path@) == Some(s@),
                None => self@.relative(path@) is None,
            },
    {
        match path.strip_prefix(&self.args.serve_path) {
            Some(rest) => match rest.to_text() {
                Some(text) => Some(normalize_path(Some(text.as_str()), false)),
                None => Some(normalize_path(None, false)),
            },
            None => None,
        }
    }

    /// Begins to look whether a path leads outside the served directory.
    pub fn guard_root_contained(&self, path: &FsPath) -> (r: RootStep)
        ensures
            r@ == if self@.args.allow_symlink {
                RootStepView::Settled(false)
            } else {
                RootStepView::Look(path@)
            },
    {
        if self.args.allow_symlink {
            RootStep::Settled(false)
        } else {
            RootStep::Look(path.copy())
        }
    }

    /// Whether a path lies in the served directory; `canonical` is where it is with all links
    /// followed.
    pub fn is_root_contained(&self, canonical: Option<&FsPath>) -> (r: bool)
        ensures
            r == (canonical is Some && canonical->0@.starts_with(self@.args.serve_path)),
    {
        match canonical {
            Some(path) => path.starts_with(&self.args.serve_path),
            None => false,
        }
    }

    /// Whether a path leads to the file that stores the passwords, or to a temporary file of it;
    /// `canonical` and `canonical_metadata` are where the two are with all links followed.
    pub fn is_directory_auth_metadata(
        &self,
        path: &FsPath,
        canonical: &Option<FsPath>,
        canonical_metadata: &Option<FsPath>,
    ) -> (r: bool)
        ensures
            r == self@.is_auth_metadata(
                path@,
                optional_path(*canonical),
                optional_path(*canonical_metadata),
            ),
    {
        match &self.directory_auth {
            Some(auth) => is_metadata_path(
                path,
                auth.metadata_path(),
                canonical,
                canonical_metadata,
            ),
            None => false,
        }
    }

    /// The reply as it leaves the server: what handling the request gave, or that it failed, with
    /// the headers that every reply has.
    pub fn call(&self, handled: Option<Response>) -> (r: Response)
        ensures
            r@ == finished(
                self@.args.enable_cors,
                match handled {
                    Some(res) => Some(res@),
                    None => None,
                },
            ),
    {
        let mut res: Response = match handled {
            Some(res) => res,
            None => {
                let mut res = Response::new();
                res.status = 500;
                res
            },
        };
        if self.args.enable_cors {
            add_cors(&mut res);
        }
        res.set_header("referrer-policy", "no-referrer");
        res
    }
}

/// The reply as it leaves the server.
pub open spec fn finished(enable_cors: bool, handled: Option<ResponseView>) -> ResponseView {
    let res = match handled {
        Some(res) => res,
        None => ResponseView::fresh().status(500),
    };
    if enable_cors {
        res.cors().header("referrer-policy"@, "no-referrer"@)
    } else {
        res.header("referrer-policy"@, "no-referrer"@)
    }
}

/// Names that are left of pieces are clean where none of the pieces leads up, and hold no slash.
proof fn lemma_proper_names(names: Seq<Seq<char>>)
    requires
        !names.contains(seq!['.', '.']),
        forall|i: int| 0 <= i < names.len() ==> !(#[trigger] names[i]).contains('/'),
    ensures
        forall|i: int|
            0 <= i < proper_names(names).len() ==> clean_name(#[trigger] proper_names(names)[i])
                && !proper_names(names)[i].contains('/'),
    decreases names.len(),
{
    if names.len() > 0 {
        let front = names.drop_last();
        assert forall|i: int| 0 <= i < front.len() implies !(#[trigger] front[i]).contains('/') by {
            assert(front[i] == names[i]);
        }
        assert(!front.contains(seq!['.', '.'])) by {
            if front.contains(seq!['.', '.']) {
                let i = choose|i: int| 0 <= i < front.len() && front[i] == seq!['.', '.'];
                assert(names[i] == seq!['.', '.']);
            }
        }
        lemma_proper_names(front);
        assert(names[names.len() - 1] == names.last());
        assert(names.contains(names.last()));
        assert(!names[names.len() - 1].contains('/'));
        let kept = proper_names(front);
        assert forall|i: int| 0 <= i < proper_names(names).len() implies clean_name(
            #[trigger] proper_names(names)[i],
        ) && !proper_names(names)[i].contains('/') by {
            if i < kept.len() {
                assert(proper_names(names)[i] == kept[i]);
            } else {
                assert(proper_names(names)[i] == names.last());
            }
        }
    }
}

/// A text all of whose pieces are clean begins and ends with no slash.
proof fn lemma_clean_is_trimmed(path: Seq<char>)
    requires
        valid_path(path),
    ensures
        path.len() > 0,
        path[0] != '/',
        path.last() != '/',
        trimmed(path, '/') == path,
{
    let p = pieces(path, '/');
    lemma_pieces_nonempty(path, '/');
    assert(clean_name(p[0]));
    if path.len() > 0 {
        assert(clean_name(p[p.len() - 1]));
        if path[0] == '/' {
            lemma_first_piece_empty(path);
        }
    }
}

/// The first piece of a text that begins with a slash is empty.
proof fn lemma_first_piece_empty(path: Seq<char>)
    requires
        path.len() > 0,
        path[0] == '/',
    ensures
        pieces(path, '/').len() > 1,
        pieces(path, '/')[0] == Seq::<char>::empty(),
    decreases path.len(),
{
    let front = path.drop_last();
    if front.len() == 0 {
        assert(pieces(front, '/') =~= seq![Seq::<char>::empty()]);
    } else {
        lemma_first_piece_empty(front);
    }
}

/// The path that a request stands for is clean: it is empty, or its names are separated by single
/// slashes and none of them is empty, `.` or `..`. The one thing left open is a prefix that ends
/// inside a name of which `.` or `..` remains.
pub proof fn law_resolved_path_is_clean(server: ServerView, decoded: Seq<char>)
    requires
        server.resolve(Some(decoded)) is Some,
        server.args.path_prefix.len() > 0 ==> {
            let rest = joined(path_components(decoded)->0, '/').skip(
                left_trimmed(server.args.path_prefix, '/').len() as int,
            );
            pieces(rest, '/')[0] != seq!['.'] && pieces(rest, '/')[0] != seq!['.', '.']
        },
    ensures
        server.resolve(Some(decoded))->0.len() == 0 || valid_path(server.resolve(Some(decoded))->0),
{
    let all = pieces(trimmed(decoded, '/'), '/');
    let names = path_components(decoded)->0;
    lemma_pieces_free(trimmed(decoded, '/'), '/');
    lemma_proper_names(all);
    let path = joined(names, '/');
    if names.len() > 0 {
        lemma_pieces_of_joined(names, '/');
        assert(valid_path(path));
    }
    if server.args.path_prefix.len() > 0 {
        let n = left_trimmed(server.args.path_prefix, '/').len() as int;
        let rest = path.skip(n);
        if rest.len() > 0 {
            lemma_pieces_skip(path, n, '/');
            let gone = pieces(path.take(n), '/').len();
            lemma_pieces_nonempty(path.take(n), '/');
            lemma_pieces_nonempty(rest, '/');
            let p = pieces(rest, '/');
            assert forall|j: int| 1 <= j < p.len() implies clean_name(#[trigger] p[j]) by {
                assert(p[j] == pieces(path, '/')[j + gone - 1]);
            }
            if rest[0] == '/' {
                let tail = rest.skip(1);
                lemma_first_piece_empty(rest);
                lemma_pieces_skip(rest, 1, '/');
                lemma_pieces_nonempty(tail, '/');
                assert(rest.take(1) =~= seq!['/']);
                assert(seq!['/'].drop_last() =~= Seq::<char>::empty());
                assert(pieces(seq!['/'], '/').len() == 2) by {
                    reveal_with_fuel(pieces, 3);
                }
                assert forall|j: int| 0 <= j < pieces(tail, '/').len() implies clean_name(
                    #[trigger] pieces(tail, '/')[j],
                ) by {
                    assert(pieces(tail, '/')[j] == p[j + 1]);
                }
                assert(valid_path(tail));
                lemma_clean_is_trimmed(tail);
                assert(rest.drop_first() =~= tail);
                assert(left_trimmed(rest, '/') == left_trimmed(tail, '/'));
                assert(trimmed(rest, '/') == tail);
            } else {
                assert(p[0].len() > 0) by {
                    lemma_first_piece_nonempty(rest);
                }
                assert(valid_path(rest));
                lemma_clean_is_trimmed(rest);
            }
        } else {
            assert(trimmed(rest, '/') =~= rest);
        }
    }
}

/// The first piece of a text that begins with another character than a slash is not empty.
proof fn lemma_first_piece_nonempty(path: Seq<char>)
    requires
        path.len() > 0,
        path[0] != '/',
    ensures
        pieces(path, '/')[0].len() > 0,
    decreases path.len(),
{
    let front = path.drop_last();
    lemma_pieces_nonempty(front, '/');
    if front.len() == 0 {
        assert(pieces(front, '/') =~= seq![Seq::<char>::empty()]);
    } else {
        lemma_first_piece_nonempty(front);
    }
}

/// A clean relative path leads to a place below the served directory: the place's path is that of
/// the directory, followed by the names of the relative path.
pub proof fn law_clean_path_stays_inside(server: ServerView, relative: Seq<char>)
    requires
        relative.len() == 0 || valid_path(relative),
    ensures
        server.place(relative).starts_with(server.args.serve_path),
        relative.len() > 0 ==> server.place(relative).parts == server.args.serve_path.parts
            + text_parts(pieces(relative, '/')),
{
    if relative.len() > 0 {
        lemma_clean_is_trimmed(relative);
        lemma_pieces_nonempty(relative, '/');
        lemma_clean_names_stay(pieces(relative, '/'));
        assert(clean_name(pieces(relative, '/')[0]));
    }
    let base = server.args.serve_path;
    assert(server.place(relative).parts.take(base.parts.len() as int) =~= base.parts);
}

/// Clean names all count.
proof fn lemma_clean_names_stay(names: Seq<Seq<char>>)
    requires
        forall|i: int| 0 <= i < names.len() ==> clean_name(#[trigger] names[i]),
    ensures
        proper_names(names) == names,
    decreases names.len(),
{
    if names.len() > 0 {
        let front = names.drop_last();
        assert forall|i: int| 0 <= i < front.len() implies clean_name(#[trigger] front[i]) by {
            assert(front[i] == names[i]);
        }
        lemma_clean_names_stay(front);
        assert(clean_name(names[names.len() - 1]));
        assert(front.push(names.last()) =~= names);
    }
}

/// A place that a clean relative path leads to has that relative path.
pub proof fn law_relative_undoes_place(server: ServerView, relative: Seq<char>)
    requires
        relative.len() == 0 || valid_path(relative),
    ensures
        server.relative(server.place(relative)) == Some(relative),
{
    let place = server.place(relative);
    let rest = place.strip_prefix(server.args.serve_path)->0;
    law_clean_path_stays_inside(server, relative);
    if relative.len() > 0 {
        let names = pieces(relative, '/');
        assert(rest.parts =~= text_parts(names));
        assert(rest.parts.map_values(|p: PartView| p->Text_0) =~= names);
        lemma_joined_pieces(relative);
        lemma_clean_is_trimmed(relative);
    } else {
        assert(rest.parts =~= Seq::<PartView>::empty());
        assert(rest.parts.map_values(|p: PartView| p->Text_0) =~= Seq::<Seq<char>>::empty());
        assert(joined(Seq::<Seq<char>>::empty(), '/') =~= relative);
    }
}

/// Joining the pieces of a text gives the text.
proof fn lemma_joined_pieces(s: Seq<char>)
    ensures
        joined(pieces(s, '/'), '/') == s,
    decreases s.len(),
{
    lemma_pieces_nonempty(s, '/');
    let p = pieces(s, '/');
    if s.len() == 0 {
        assert(p[0] =~= s);
    } else {
        let front = s.drop_last();
        let q = pieces(front, '/');
        lemma_pieces_nonempty(front, '/');
        lemma_joined_pieces(front);
        if s.last() == '/' {
            assert(p.drop_last() =~= q);
            assert(joined(q, '/').push('/') + Seq::<char>::empty() =~= s);
        } else {
            assert(p.drop_last() =~= q.drop_last());
            if q.len() == 1 {
                assert(p[0] =~= s);
            } else {
                assert(joined(q.drop_last(), '/').push('/') + q.last().push(s.last()) =~= (joined(
                    q.drop_last(),
                    '/',
                ).push('/') + q.last()).push(s.last()));
                assert(front.push(s.last()) =~= s);
            }
        }
    }
}

/// What the search for the nearest existing place comes to, where `found` says of each place whether
/// something exists there.
pub open spec fn root_outcome(place: FsPathView, found: spec_fn(FsPathView) -> bool) -> RootStepView
    decreases place.parts.len(),
{
    match looked(place, found(place)) {
        RootStepView::Look(parent) => if parent.parts.len() < place.parts.len() {
            root_outcome(parent, found)
        } else {
            RootStepView::Look(parent)
        },
        step => step,
    }
}

/// The search comes to the nearest place, at the path or above it, at which something exists, and says
/// that the path leads outside where there is none.
pub proof fn law_root_search_finds_nearest(path: FsPathView, found: spec_fn(FsPathView) -> bool)
    ensures
        match root_outcome(path, found) {
            RootStepView::Resolve(place) => {
                &&& found(place)
                &&& place.parts.len() <= path.parts.len()
                &&& place == (FsPathView {
                    absolute: path.absolute,
                    parts: path.parts.take(place.parts.len() as int),
                })
                &&& forall|n: int|
                    place.parts.len() < n <= path.parts.len() ==> !found(
                        #[trigger] ancestor_of(path, n),
                    )
            },
            RootStepView::Settled(outside) => outside && forall|n: int|
                0 <= n <= path.parts.len() ==> !found(#[trigger] ancestor_of(path, n)),
            RootStepView::Look(_) => false,
        },
    decreases path.parts.len(),
{
    assert(path.parts.take(path.parts.len() as int) =~= path.parts);
    assert(ancestor_of(path, path.parts.len() as int) == path);
    if !found(path) && path.parts.len() > 0 {
        let parent = path.parent()->0;
        law_root_search_finds_nearest(parent, found);
        assert forall|n: int| 0 <= n <= parent.parts.len() implies #[trigger] ancestor_of(path, n)
            == ancestor_of(parent, n) by {
            assert(path.parts.take(n) =~= parent.parts.take(n));
        }
        match root_outcome(parent, found) {
            RootStepView::Resolve(place) => {
                let n = place.parts.len() as int;
                assert(ancestor_of(path, n) == ancestor_of(parent, n));
            },
            _ => {},
        }
    }
}

/// The place that the first components of a path lead to.
pub open spec fn ancestor_of(path: FsPathView, n: int) -> FsPathView {
    FsPathView { absolute: path.absolute, parts: path.parts.take(n) }
}

/// Every reply tells clients not to pass on where they come from.
pub proof fn law_referrer_is_withheld(enable_cors: bool, handled: Option<ResponseView>)
    ensures
        finished(enable_cors, handled).headers["referrer-policy"@] == "no-referrer"@,
        handled is None ==> finished(enable_cors, handled).status == 500,
        handled is Some ==> finished(enable_cors, handled).status == handled->0.status,
        handled is Some ==> finished(enable_cors, handled).body == handled->0.body,
{
}

} // verus!
