//! What holds of paths: of files, and of requests.
use crate::assets::{framed, revision, AssetsView};
use crate::directory_auth::valid_path;
use crate::directory_laws::law_clean_paths;
use crate::outside::sha256;
use crate::paths::{normalized, proper_names, text_parts, FsPathView, PartView};
use crate::response::{BodyView, ResponseView};
use crate::server::{
    assets_prefix_of, auth_of, below_prefix, finished, is_drive, law_clean_path_stays_inside, looked,
    ordinary_names, path_components, ArgsView, RootStepView, ServerView,
};
use crate::text::{joined, left_trimmed, pieces, trimmed};
use crate::text_laws::{
    law_join_undoes_split, law_pieces_hold_no_separator, law_prefix_and_rest,
    law_split_at_separator, law_trimming,
};
use vstd::prelude::*;
use vstd::string::*;

verus! {

/// A path lies below another one exactly if it continues its components, and what is left then are
/// those that continue it.
pub proof fn law_paths_below(base: FsPathView, rest: Seq<PartView>, path: FsPathView)
    ensures
        ({
            let below = FsPathView { absolute: base.absolute, parts: base.parts + rest };
            &&& below.starts_with(base)
            &&& below.strip_prefix(base) == Some(FsPathView { absolute: false, parts: rest })
        }),
        base.absolute || base.parts.len() > 0 ==> (path.starts_with(base) <==> path.absolute
            == base.absolute && exists|r: Seq<PartView>| path.parts == #[trigger] (base.parts + r)),
        path.strip_prefix(base) is Some <==> path.starts_with(base),
{
    let below = FsPathView { absolute: base.absolute, parts: base.parts + rest };
    assert(below.parts.take(base.parts.len() as int) =~= base.parts);
    assert(below.parts.skip(base.parts.len() as int) =~= rest);
    if base.parts.len() == 0 && !base.absolute {
        assert(!(below.absolute && !base.absolute));
    }
    if path.starts_with(base) && (base.absolute || base.parts.len() > 0) {
        assert(path.parts =~= base.parts + path.parts.skip(base.parts.len() as int));
    }
    if exists|r: Seq<PartView>| path.parts == #[trigger] (base.parts + r) {
        let r = choose|r: Seq<PartView>| path.parts == #[trigger] (base.parts + r);
        assert(path.parts.take(base.parts.len() as int) =~= base.parts);
    }
}

/// The directory of a path and its name there are what it is made of; `.` and `..` are no names.
pub proof fn law_parents_and_names(absolute: bool, above: Seq<PartView>, part: PartView)
    ensures
        ({
            let path = FsPathView { absolute, parts: above.push(part) };
            &&& path.parent() == Some(FsPathView { absolute, parts: above })
            &&& part != PartView::Text(seq!['.']) && part != PartView::Text(seq!['.', '.'])
                ==> path.file_name() == Some(part)
            &&& part == PartView::Text(seq!['.']) || part == PartView::Text(seq!['.', '.'])
                ==> path.file_name() is None
            &&& path.file_name_text() == if path.file_name() is Some && part is Text {
                Some(part->Text_0)
            } else {
                None
            }
        }),
        (FsPathView { absolute, parts: Seq::empty() }).parent() is None,
        (FsPathView { absolute, parts: Seq::empty() }).file_name() is None,
{
    assert(above.push(part).drop_last() =~= above);
}

/// A name has an extension exactly if a dot stands in it that is not its first character.
pub proof fn law_extensions(absolute: bool, above: Seq<PartView>, name: Seq<char>, i: int)
    requires
        name != seq!['.'],
        name != seq!['.', '.'],
    ensures
        ({
            let path = FsPathView { absolute, parts: above.push(PartView::Text(name)) };
            &&& 1 <= i < name.len() && name[i] == '.' ==> path.has_extension()
            &&& path.has_extension() ==> exists|j: int| 1 <= j < name.len() && name[j] == '.'
        }),
{
    let path = FsPathView { absolute, parts: above.push(PartView::Text(name)) };
    assert(path.file_name() == Some(PartView::Text(name)));
    if 1 <= i < name.len() && name[i] == '.' {
        assert(name.skip(1)[i - 1] == '.');
    }
    if path.has_extension() {
        let k = choose|k: int| 0 <= k < name.skip(1).len() && name.skip(1)[k] == '.';
        assert(name[k + 1] == '.');
    }
}

/// The text of a path is its names with slashes between them, after one if it starts at the root; a
/// path with a name that is no text has none.
pub proof fn law_texts_of_paths(absolute: bool, names: Seq<Seq<char>>, path: FsPathView, i: int)
    ensures
        (FsPathView { absolute, parts: text_parts(names) }).to_text() == Some(
            if absolute {
                seq!['/'] + joined(names, '/')
            } else {
                joined(names, '/')
            },
        ),
        0 <= i < path.parts.len() && path.parts[i] is Raw ==> path.to_text() is None,
{
    let made = FsPathView { absolute, parts: text_parts(names) };
    assert(made.parts.map_values(|p: PartView| p->Text_0) =~= names);
}

/// A text leads on from a path by its names: none for empty ones and `.`, and from the root where it
/// begins with a slash.
pub proof fn law_paths_lead_on(base: FsPathView, a: Seq<char>, name: Seq<char>)
    requires
        valid_path(a),
        valid_path(name),
        !name.contains('/'),
    ensures
        base.join(name) == (FsPathView {
            absolute: base.absolute,
            parts: base.parts.push(PartView::Text(name)),
        }),
        base.join(a.push('/') + name) == base.join(a).join(name),
        base.join(seq!['/'] + a) == (FsPathView { absolute: true, parts: Seq::empty() }).join(a),
{
    law_clean_paths(a, name, name);
    lemma_join_clean(base, name);
    lemma_join_clean(base, a);
    lemma_join_clean(base, a.push('/') + name);
    lemma_join_clean(base.join(a), name);
    lemma_join_clean(FsPathView { absolute: true, parts: Seq::empty() }, a);
    law_split_at_separator(name, Seq::empty(), '/');
    law_split_at_separator(a, name, '/');
    assert(base.parts + text_parts(seq![name]) =~= base.parts.push(PartView::Text(name)));
    assert(base.parts + text_parts(pieces(a, '/') + pieces(name, '/')) =~= (base.parts
        + text_parts(pieces(a, '/'))) + text_parts(pieces(name, '/')));
    let empty = Seq::<char>::empty();
    law_split_at_separator(empty, a, '/');
    assert(empty.push('/') + a =~= seq!['/'] + a);
    assert(pieces(empty, '/') =~= seq![empty]);
    lemma_clean_pieces_count(a);
    lemma_first_empty_goes(pieces(a, '/'));
    assert(Seq::<PartView>::empty() + text_parts(pieces(a, '/')) =~= text_parts(pieces(a, '/')));
}

/// Empty names and `.` lead nowhere, and all others lead on, in their order; `.` at the start of a
/// path that is nothing yet stays.
pub proof fn law_names_that_count(
    base: FsPathView,
    names: Seq<Seq<char>>,
    name: Seq<char>,
    text: Seq<char>,
)
    ensures
        proper_names(names.push(name)) == if name.len() == 0 || name == seq!['.'] {
            proper_names(names)
        } else {
            proper_names(names).push(name)
        },
        proper_names(Seq::empty()).len() == 0,
        text.len() > 0 && text[0] != '/' ==> base.join(text) == (FsPathView {
            absolute: base.absolute,
            parts: base.parts + if base.absolute || base.parts.len() > 0 || pieces(text, '/')[0]
                != seq!['.'] {
                text_parts(proper_names(pieces(text, '/')))
            } else {
                seq![PartView::Text(seq!['.'])] + text_parts(proper_names(pieces(text, '/')))
            },
        }),
        base.join(Seq::empty()) == base,
{
    assert(names.push(name).drop_last() =~= names);
    let empty = Seq::<char>::empty();
    assert(pieces(empty, '/') =~= seq![empty]);
    lemma_first_empty_goes(Seq::empty());
    assert(seq![empty] + Seq::<Seq<char>>::empty() =~= seq![empty]);
    assert(base.parts + text_parts(Seq::empty()) =~= base.parts);
    if base.parts.len() == 0 {
        let dotted = seq![PartView::Text(seq!['.'])] + text_parts(proper_names(pieces(text, '/')));
        assert(base.parts + dotted =~= dotted);
    }
}

/// A clean text leads on by all its pieces.
proof fn lemma_join_clean(base: FsPathView, a: Seq<char>)
    requires
        valid_path(a),
    ensures
        base.join(a) == (FsPathView {
            absolute: base.absolute,
            parts: base.parts + text_parts(pieces(a, '/')),
        }),
{
    lemma_clean_pieces_count(a);
    let p = pieces(a, '/');
    law_pieces_hold_no_separator(a, '/');
    assert(crate::directory_auth::clean_name(p[0]));
    if a.len() > 0 && a[0] == '/' {
        let rest = a.drop_first();
        let empty = Seq::<char>::empty();
        assert(empty.push('/') + rest =~= a);
        law_split_at_separator(empty, rest, '/');
        assert(pieces(empty, '/') =~= seq![empty]);
        assert(p[0] == empty);
    }
}

proof fn lemma_clean_pieces_count(a: Seq<char>)
    requires
        valid_path(a),
    ensures
        proper_names(pieces(a, '/')) == pieces(a, '/'),
{
    lemma_proper_stays(pieces(a, '/'));
}

proof fn lemma_proper_stays(names: Seq<Seq<char>>)
    requires
        forall|i: int|
            0 <= i < names.len() ==> crate::directory_auth::clean_name(#[trigger] names[i]),
    ensures
        proper_names(names) == names,
    decreases names.len(),
{
    if names.len() > 0 {
        let front = names.drop_last();
        assert forall|i: int| 0 <= i < front.len() implies crate::directory_auth::clean_name(
            #[trigger] front[i],
        ) by {
            assert(front[i] == names[i]);
        }
        lemma_proper_stays(front);
        assert(crate::directory_auth::clean_name(names[names.len() - 1]));
        assert(front.push(names.last()) =~= names);
    }
}

proof fn lemma_first_empty_goes(names: Seq<Seq<char>>)
    ensures
        proper_names(seq![Seq::<char>::empty()] + names) == proper_names(names),
    decreases names.len(),
{
    let whole = seq![Seq::<char>::empty()] + names;
    if names.len() == 0 {
        reveal_with_fuel(proper_names, 2);
        assert(names =~= Seq::<Seq<char>>::empty());
        assert(whole.drop_last() =~= Seq::<Seq<char>>::empty());
    } else {
        lemma_first_empty_goes(names.drop_last());
        assert(whole.drop_last() =~= seq![Seq::<char>::empty()] + names.drop_last());
        assert(whole.last() == names.last());
    }
}

/// The place of a clean relative path is below the served directory, one component for each name, and
/// the root is the served directory itself.
pub proof fn law_places_of_paths(server: ServerView, a: Seq<char>, name: Seq<char>)
    requires
        valid_path(a),
        valid_path(name),
        !name.contains('/'),
    ensures
        server.place(Seq::empty()) == server.args.serve_path,
        server.place(name) == (FsPathView {
            absolute: server.args.serve_path.absolute,
            parts: server.args.serve_path.parts.push(PartView::Text(name)),
        }),
        server.place(a.push('/') + name) == (FsPathView {
            absolute: server.args.serve_path.absolute,
            parts: server.place(a).parts.push(PartView::Text(name)),
        }),
{
    law_paths_lead_on(server.args.serve_path, a, name);
    law_paths_lead_on(server.args.serve_path, name, name);
    law_paths_lead_on(server.place(a), a, name);
    law_pieces_hold_no_separator(a, '/');
    assert(crate::directory_auth::clean_name(pieces(a, '/')[0]));
    assert(crate::directory_auth::clean_name(pieces(name, '/')[0]));
    assert(a.len() > 0) by {
        if a.len() == 0 {
            assert(pieces(a, '/')[0].len() == 0);
        }
    }
    assert(name.len() > 0) by {
        if name.len() == 0 {
            assert(pieces(name, '/')[0].len() == 0);
        }
    }
    lemma_join_clean(server.args.serve_path, a);
    law_clean_path_stays_inside(server, a);
}

/// A place below the served directory has the relative path of its names, and one that is not has
/// none.
pub proof fn law_relative_paths(server: ServerView, names: Seq<Seq<char>>, path: FsPathView)
    ensures
        server.relative(
            FsPathView {
                absolute: server.args.serve_path.absolute,
                parts: server.args.serve_path.parts + text_parts(names),
            },
        ) == Some(joined(names, '/')),
        !path.starts_with(server.args.serve_path) ==> server.relative(path) is None,
        path.starts_with(server.args.serve_path) ==> server.relative(path) is Some,
{
    law_paths_below(server.args.serve_path, text_parts(names), path);
    law_texts_of_paths(false, names, path, 0);
}

/// A request path is taken as it is, without slashes at its ends, where no prefix is set.
pub proof fn law_request_paths_are_taken_as_they_are(server: ServerView, path: Seq<char>)
    requires
        server.args.path_prefix.len() == 0,
        valid_path(path),
    ensures
        server.resolve(Some(path)) == Some(path),
        server.resolve(Some(seq!['/'] + path)) == Some(path),
        server.resolve(Some(seq!['/'] + path.push('/'))) == Some(path),
        server.resolve(Some(seq!['/'])) == Some(Seq::<char>::empty()),
        server.resolve(Some(Seq::empty())) == Some(Seq::<char>::empty()),
        server.resolve(None) is None,
{
    lemma_components_of_clean(path);
    law_join_undoes_split(path, pieces(path, '/'), '/');
    law_trimming(path, '/');
    law_trimming(path.push('/'), '/');
    let empty = Seq::<char>::empty();
    law_trimming(empty, '/');
    assert(seq!['/'] + empty =~= seq!['/']);
    assert(trimmed(empty, '/') == empty);
    assert(pieces(empty, '/') =~= seq![empty]);
    assert(seq![empty][0] == empty);
    assert(empty != seq!['.']);
    assert(!seq![empty].contains(seq!['.', '.'])) by {
        if seq![empty].contains(seq!['.', '.']) {
            assert(seq![empty][0].len() == 2);
        }
    }
    lemma_first_empty_goes(Seq::empty());
    assert(seq![empty] + Seq::<Seq<char>>::empty() =~= seq![empty]);
    assert(joined(Seq::<Seq<char>>::empty(), '/') =~= empty);
}

/// The components of a clean path are its pieces.
proof fn lemma_components_of_clean(path: Seq<char>)
    requires
        valid_path(path),
    ensures
        trimmed(path, '/') == path,
        path_components(path) == Some(pieces(path, '/')),
        path_components(seq!['/'] + path) == Some(pieces(path, '/')),
        path_components(seq!['/'] + path.push('/')) == Some(pieces(path, '/')),
{
    let p = pieces(path, '/');
    law_pieces_hold_no_separator(path, '/');
    lemma_clean_pieces_count(path);
    assert(crate::directory_auth::clean_name(p[0]));
    assert(crate::directory_auth::clean_name(p[p.len() - 1]));
    lemma_clean_ends(path);
    law_trimming(path, '/');
    law_trimming(path.push('/'), '/');
    assert(!p.contains(seq!['.', '.'])) by {
        if p.contains(seq!['.', '.']) {
            let i = choose|i: int| 0 <= i < p.len() && p[i] == seq!['.', '.'];
            assert(crate::directory_auth::clean_name(p[i]));
        }
    }
}

/// A clean path begins and ends with no slash.
proof fn lemma_clean_ends(path: Seq<char>)
    requires
        valid_path(path),
    ensures
        path.len() > 0,
        path[0] != '/',
        path.last() != '/',
{
    let empty = Seq::<char>::empty();
    law_pieces_hold_no_separator(path, '/');
    assert(crate::directory_auth::clean_name(pieces(path, '/')[0]));
    assert(pieces(empty, '/') =~= seq![empty]);
    if path.len() > 0 {
        if path[0] == '/' {
            let rest = path.drop_first();
            assert(empty.push('/') + rest =~= path);
            law_clean_paths(empty, rest, empty);
            assert(!empty.contains('/'));
        }
        if path.last() == '/' {
            let front = path.drop_last();
            assert(front.push('/') + empty =~= path);
            law_clean_paths(front, empty, empty);
            assert(!empty.contains('/'));
        }
    }
}

/// A request path with `..` among its names leads nowhere, and neither does one that begins with `.`.
pub proof fn law_ways_up_are_refused(server: ServerView, before: Seq<char>, after: Seq<char>)
    ensures
        server.resolve(Some(before + seq!['/', '.', '.', '/'] + after)) is None,
        server.resolve(Some(seq!['.', '.', '/'] + after)) is None,
        server.resolve(Some(before + seq!['/', '.', '.'])) is None,
        server.resolve(Some(seq!['.', '.'])) is None,
        server.resolve(Some(seq!['.', '/'] + after)) is None,
        server.resolve(Some(seq!['.'])) is None,
{
    let up = seq!['.', '.'];
    assert(before + seq!['/', '.', '.', '/'] + after =~= (before.push('/') + up).push('/') + after);
    assert(seq!['.', '.', '/'] + after =~= up.push('/') + after);
    assert(before + seq!['/', '.', '.'] =~= before.push('/') + up);
    assert(seq!['.', '/'] + after =~= seq!['.'].push('/') + after);
    lemma_up_stays_last(before);
    lemma_up_stays(before.push('/') + up, after);
    lemma_up_first(after);
    lemma_dot_first(after);
}

/// Trimming slashes leaves names other than empty ones among the pieces.
proof fn lemma_trim_keeps_piece(s: Seq<char>, name: Seq<char>)
    requires
        name.len() > 0,
        pieces(s, '/').contains(name),
    ensures
        pieces(trimmed(s, '/'), '/').contains(name),
    decreases s.len(),
{
    let empty = Seq::<char>::empty();
    assert(pieces(empty, '/') =~= seq![empty]);
    law_trimming(s, '/');
    if s.len() == 0 {
    } else if s[0] == '/' {
        let rest = s.drop_first();
        assert(empty.push('/') + rest =~= s);
        assert(seq!['/'] + rest =~= s);
        law_split_at_separator(empty, rest, '/');
        law_trimming(rest, '/');
        let i = choose|i: int| 0 <= i < pieces(s, '/').len() && pieces(s, '/')[i] == name;
        assert(i > 0);
        assert(pieces(rest, '/')[i - 1] == name);
        lemma_trim_keeps_piece(rest, name);
    } else if s.last() == '/' {
        let front = s.drop_last();
        assert(front.push('/') + empty =~= s);
        assert(front.push('/') =~= s);
        law_split_at_separator(front, empty, '/');
        law_trimming(front, '/');
        let i = choose|i: int| 0 <= i < pieces(s, '/').len() && pieces(s, '/')[i] == name;
        assert(i < pieces(front, '/').len());
        assert(pieces(front, '/')[i] == name);
        lemma_trim_keeps_piece(front, name);
    }
}

proof fn lemma_up_stays(before: Seq<char>, after: Seq<char>)
    requires
        pieces(before, '/').contains(seq!['.', '.']),
    ensures
        path_components(before.push('/') + after) is None,
        path_components(before) is None,
{
    law_split_at_separator(before, after, '/');
    let i = choose|i: int|
        0 <= i < pieces(before, '/').len() && pieces(before, '/')[i] == seq!['.', '.'];
    assert(pieces(before.push('/') + after, '/')[i] == seq!['.', '.']);
    lemma_trim_keeps_piece(before.push('/') + after, seq!['.', '.']);
    lemma_trim_keeps_piece(before, seq!['.', '.']);
}

proof fn lemma_up_stays_last(before: Seq<char>)
    ensures
        pieces(before.push('/') + seq!['.', '.'], '/').contains(seq!['.', '.']),
        path_components(before.push('/') + seq!['.', '.']) is None,
{
    let up = seq!['.', '.'];
    law_split_at_separator(before, up, '/');
    law_split_at_separator(up, Seq::empty(), '/');
    assert(!up.contains('/'));
    let p = pieces(before.push('/') + up, '/');
    assert(p[p.len() - 1] == up);
    lemma_up_stays(before.push('/') + up, Seq::empty());
}

proof fn lemma_up_first(after: Seq<char>)
    ensures
        path_components(seq!['.', '.'].push('/') + after) is None,
        path_components(seq!['.', '.']) is None,
{
    let up = seq!['.', '.'];
    law_split_at_separator(up, Seq::empty(), '/');
    assert(!up.contains('/'));
    assert(pieces(up, '/')[0] == up);
    lemma_up_stays(up, after);
}

proof fn lemma_dot_first(after: Seq<char>)
    ensures
        path_components(seq!['.'].push('/') + after) is None,
        path_components(seq!['.']) is None,
    decreases after.len(),
{
    let dot = seq!['.'];
    let empty = Seq::<char>::empty();
    assert(!dot.contains('/'));
    law_split_at_separator(dot, empty, '/');
    law_trimming(dot, '/');
    assert(pieces(dot, '/')[0] == dot);
    let s = dot.push('/') + after;
    law_trimming(s, '/');
    if after.len() == 0 {
        assert(s =~= dot.push('/'));
    } else if after.last() == '/' {
        let front = after.drop_last();
        lemma_dot_first(front);
        assert(s =~= (dot.push('/') + front).push('/'));
        law_trimming(dot.push('/') + front, '/');
    } else {
        assert(s[0] == '.');
        assert(s.last() == after.last());
        law_split_at_separator(dot, after, '/');
        assert(pieces(s, '/')[0] == dot);
    }
}

/// Where requests are to have a prefix, it is taken away, and a path that does not begin with it leads
/// nowhere.
pub proof fn law_prefixes_are_taken_away(server: ServerView, prefix: Seq<char>, path: Seq<char>)
    requires
        valid_path(prefix),
        valid_path(path),
        server.args.path_prefix == prefix || server.args.path_prefix == seq!['/'] + prefix,
    ensures
        server.resolve(Some(seq!['/'] + prefix.push('/') + path)) == Some(path),
        server.resolve(Some(seq!['/'] + prefix)) == Some(Seq::<char>::empty()),
        (forall|r: Seq<char>| path != #[trigger] (prefix + r)) ==> server.resolve(
            Some(seq!['/'] + path),
        ) is None,
{
    let empty = Seq::<char>::empty();
    let whole = prefix.push('/') + path;
    law_clean_paths(prefix, path, empty);
    lemma_components_of_clean(whole);
    lemma_components_of_clean(prefix);
    lemma_components_of_clean(path);
    law_join_undoes_split(whole, pieces(whole, '/'), '/');
    law_join_undoes_split(prefix, pieces(prefix, '/'), '/');
    law_join_undoes_split(path, pieces(path, '/'), '/');
    lemma_clean_ends(prefix);
    law_trimming(prefix, '/');
    assert(left_trimmed(server.args.path_prefix, '/') == prefix);
    assert(seq!['/'] + prefix.push('/') + path =~= seq!['/'] + whole);
    assert(whole =~= prefix + (seq!['/'] + path));
    law_prefix_and_rest(whole, prefix, seq!['/'] + path);
    law_trimming(path, '/');
    assert(prefix + empty =~= prefix);
    law_prefix_and_rest(prefix, prefix, empty);
    law_trimming(empty, '/');
    assert(trimmed(empty, '/') == empty);
    law_prefix_and_rest(path, prefix, empty);
    assert(below_prefix(pieces(whole, '/'), server.args.path_prefix) == Some(path));
}

/// Components of a path give its names where all of them are ordinary, and on Windows none is a drive.
pub proof fn law_ordinary_components(names: Seq<Seq<char>>, windows: bool, i: int)
    ensures
        ({
            let components = names.map_values(|n: Seq<char>| Some(n));
            let drive = 0 <= i < names.len() && names[i].len() == 2 && names[i][1] == ':' && ('a'
                <= names[i][0] <= 'z' || 'A' <= names[i][0] <= 'Z');
            &&& !windows ==> ordinary_names(components, windows) == Some(names)
            &&& windows && drive ==> ordinary_names(components, windows) is None
            &&& windows && (forall|j: int|
                0 <= j < names.len() ==> (#[trigger] names[j]).len() != 2 || names[j][1] != ':')
                ==> ordinary_names(components, windows) == Some(names)
        }),
{
    let components = names.map_values(|n: Seq<char>| Some(n));
    assert(components.map_values(|c: Option<Seq<char>>| c->0) =~= names);
    assert forall|j: int| 0 <= j < components.len() implies (#[trigger] components[j]) is Some && (!(
    windows && is_drive(names[j])) ==> !(windows && is_drive(components[j]->0))) by {}
    if 0 <= i < names.len() {
        assert(components[i]->0 == names[i]);
    }
    if windows && (forall|j: int|
        0 <= j < names.len() ==> (#[trigger] names[j]).len() != 2 || names[j][1] != ':') {
        assert forall|j: int| 0 <= j < components.len() implies !is_drive(
            (#[trigger] components[j])->0,
        ) by {
            assert(components[j]->0 == names[j]);
            assert(names[j].len() != 2 || names[j][1] != ':');
        }
    }
}

/// The search for what exists goes from a place to the directory above it until it finds something,
/// and ends outside at the top.
pub proof fn law_searching_upwards(place: FsPathView)
    ensures
        looked(place, true) == RootStepView::Resolve(place),
        place.parts.len() > 0 ==> looked(place, false) == RootStepView::Look(
            FsPathView { absolute: place.absolute, parts: place.parts.drop_last() },
        ),
        place.parts.len() == 0 ==> looked(place, false) == RootStepView::Settled(true),
{
}

/// The password file is known by its path, by where it is with all links followed, and its temporary
/// files by their place beside it and their names.
pub proof fn law_password_files_are_known(
    server: ServerView,
    file: FsPathView,
    path: FsPathView,
    canonical: FsPathView,
    above: Seq<PartView>,
    name: Seq<char>,
    rest: Seq<char>,
)
    requires
        server.directory_auth is Some,
        server.directory_auth->0.file == file,
    ensures
        server.is_auth_metadata(file, None, None),
        server.is_auth_metadata(path, Some(canonical), Some(canonical)),
        name.len() > 0 && name != seq!['.'] && name != seq!['.', '.'] && file.parts == above.push(
            PartView::Text(name),
        ) ==> server.is_auth_metadata(
            FsPathView {
                absolute: file.absolute,
                parts: above.push(PartView::Text(name + ".tmp-"@ + rest)),
            },
            None,
            None,
        ),
        path != file && path.parts.len() != file.parts.len() ==> !server.is_auth_metadata(
            path,
            None,
            None,
        ),
        path != file && path.parts.len() != file.parts.len() && path != canonical
            ==> !server.is_auth_metadata(path, Some(path), Some(canonical)),
{
    let longer = name + ".tmp-"@ + rest;
    reveal_strlit(".tmp-");
    law_prefix_and_rest(longer, name + ".tmp-"@, rest);
    law_parents_and_names(file.absolute, above, PartView::Text(name));
    law_parents_and_names(file.absolute, above, PartView::Text(longer));
    assert(longer.len() > 2);
    assert(longer != seq!['.']);
    assert(longer != seq!['.', '.']);
    assert(PartView::Text(longer) != PartView::Text(seq!['.']));
    assert(PartView::Text(longer) != PartView::Text(seq!['.', '.']));
    if path.parent() is Some && path.parent() == file.parent() {
        assert(path.parent()->0.parts.len() == path.parts.len() - 1);
        assert(file.parent()->0.parts.len() == file.parts.len() - 1);
    }
}

/// Without passwords of directories there is no password file, and none are taken up.
pub proof fn law_without_passwords(
    server: ServerView,
    path: FsPathView,
    canonical: Option<FsPathView>,
    args: ArgsView,
)
    ensures
        server.directory_auth is None ==> !server.is_auth_metadata(path, canonical, canonical),
        args.directory_auth_file is None ==> auth_of(args, None) is Ok && auth_of(
            args,
            None,
        )->Ok_0 is None,
        args.directory_auth_file is Some ==> auth_of(args, None) is Ok && auth_of(
            args,
            None,
        )->Ok_0 is Some && (auth_of(args, None)->Ok_0->0).root == args.serve_path && (auth_of(
            args,
            None,
        )->Ok_0->0).file == args.directory_auth_file->0,
{
}

/// On Windows a backslash in a path becomes a slash; elsewhere a path stays as it is.
pub proof fn law_normalized_paths(s: Seq<char>)
    ensures
        normalized(Some(s), false) == s,
        normalized(None, false) == Seq::<char>::empty(),
        normalized(None, true) == Seq::<char>::empty(),
        normalized(Some(s), true).len() == s.len(),
        forall|i: int|
            0 <= i < s.len() ==> #[trigger] normalized(Some(s), true)[i] == if s[i] == '\\' {
                '/'
            } else {
                s[i]
            },
    decreases s.len(),
{
    let by = seq!['/'];
    let pattern = seq!['\\'];
    if s.len() > 0 {
        law_normalized_paths(s.drop_first());
        let rest = normalized(Some(s.drop_first()), true);
        let whole = normalized(Some(s), true);
        assert(s.skip(1) =~= s.drop_first());
        assert(s.take(1)[0] == s[0]);
        if s[0] == '\\' {
            assert(s.take(1) =~= pattern);
            assert(whole == by + rest);
        } else {
            assert(s.take(1) != pattern) by {
                assert(pattern[0] == '\\');
            }
            assert(whole == seq![s[0]] + rest);
        }
        assert forall|i: int| 0 <= i < s.len() implies #[trigger] whole[i] == if s[i] == '\\' {
            '/'
        } else {
            s[i]
        } by {
            if i > 0 {
                assert(whole[i] == rest[i - 1]);
                assert(s.drop_first()[i - 1] == s[i]);
            }
        }
    }
}

/// Every reply leaves with what it was, or that the request failed, and with the headers that all have;
/// those that open it to pages from elsewhere are there exactly where that is set.
pub proof fn law_replies_leave(res: ResponseView)
    ensures
        finished(false, Some(res)) == (ResponseView {
            headers: res.headers.insert("referrer-policy"@, "no-referrer"@),
            ..res
        }),
        finished(true, Some(res)) == (ResponseView {
            headers: res.headers.insert("access-control-allow-origin"@, "*"@).insert(
                "access-control-allow-credentials"@,
                "true"@,
            ).insert("access-control-allow-methods"@, "*"@).insert(
                "access-control-allow-headers"@,
                "Authorization,*"@,
            ).insert("access-control-expose-headers"@, "Authorization,*"@).insert(
                "referrer-policy"@,
                "no-referrer"@,
            ),
            ..res
        }),
        finished(false, None).status == 500,
        finished(false, None).body == BodyView::Empty,
        finished(true, None).status == 500,
{
}

/// The files of the user interface are found below a prefix that carries the version of the program
/// and the revision of the files.
pub proof fn law_assets_prefixes(version: Seq<char>, revision: Seq<char>)
    ensures
        assets_prefix_of(version, revision) == "__dufs_v"@ + version + "_"@ + revision + "__/"@,
{
}

/// The revision of the files of the user interface is the start of the digest of all of them: two
/// hexadecimal digits in lower case for each of its first eight bytes.
pub proof fn law_revisions(assets: AssetsView, i: int)
    requires
        0 <= i < 8,
    ensures
        sha256(framed(assets)).len() >= 8 ==> revision(assets).len() == 16,
        sha256(framed(assets)).len() >= 8 ==> ({
            let digits = "0123456789abcdef"@;
            let byte = sha256(framed(assets))[i] as int;
            &&& revision(assets)[2 * i] == digits[byte / 16]
            &&& revision(assets)[2 * i + 1] == digits[byte % 16]
        }),
{
    reveal_strlit("0123456789abcdef");
    assert((2 * i) / 2 == i && (2 * i) % 2 == 0);
    assert((2 * i + 1) / 2 == i && (2 * i + 1) % 2 == 1);
    let byte = sha256(framed(assets))[i] as int;
    if sha256(framed(assets)).len() >= 8 {
        assert(sha256(framed(assets)).take(8)[i] as int == byte);
    }
    assert(0 <= byte / 16 < 16 && 0 <= byte % 16 < 16);
}

} // verus!
