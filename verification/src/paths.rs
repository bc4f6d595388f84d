//! Locations of the launcher's files below the user's home directory, and
//! when two spellings of a path name the same place.

use vstd::prelude::*;
use crate::readme::chars_of;

verus! {

/// The path that results from pushing `part` onto `base`, as a path buffer
/// on a Unix system does: an absolute `part` replaces `base`, an empty
/// `base` becomes `part`, and a separator is put between the two unless
/// `base` already ends with one.
pub open spec fn joined(base: Seq<char>, part: Seq<char>) -> Seq<char> {
    if part.len() > 0 && part[0] == '/' {
        part
    } else if base.len() == 0 {
        part
    } else if base.last() == '/' {
        base + part
    } else {
        base + seq!['/'] + part
    }
}

/// Pushes `part` onto the path `base`.
pub fn join_path(base: &str, part: &str) -> (res: String)
    ensures
        res@ == joined(base@, part@),
{
    let part_len = part.unicode_len();
    let base_len = base.unicode_len();
    if part_len > 0 && part.get_char(0) == '/' {
        return String::from_str(part);
    }
    if base_len == 0 {
        return String::from_str(part);
    }
    let mut res = String::from_str(base);
    if base.get_char(base_len - 1) != '/' {
        res.append("/");
        proof {
            reveal_strlit("/");
        }
    }
    res.append(part);
    res
}

/// The launcher's data folder: `<home>/.debevl`.
pub open spec fn data_dir(home: Seq<char>) -> Seq<char> {
    joined(home, ".debevl"@)
}

/// The folder that holds the list of projects: `<home>/.debevl/config`.
pub open spec fn config_dir(home: Seq<char>) -> Seq<char> {
    joined(data_dir(home), "config"@)
}

/// The folder that holds the interface settings: `<home>/.debevl/28bevUI`.
pub open spec fn ui_config_dir(home: Seq<char>) -> Seq<char> {
    joined(data_dir(home), "28bevUI"@)
}

/// The folder a store game is cloned into: `<home>/.debevl/apps/games/<name>`.
pub open spec fn game_dir(home: Seq<char>, game_name: Seq<char>) -> Seq<char> {
    joined(joined(joined(data_dir(home), "apps"@), "games"@), game_name)
}

/// The folder that holds the list of projects, or `None` where the home
/// directory is unknown.
pub fn get_config_path(home: Option<&str>) -> (res: Option<String>)
    ensures
        match home {
            Some(h) => res matches Some(p) && p@ == config_dir(h@),
            None => res is None,
        },
{
    match home {
        Some(h) => {
            let data = join_path(h, ".debevl");
            Some(join_path(data.as_str(), "config"))
        },
        None => None,
    }
}

/// The file that holds the list of projects: `projects.json` in the folder
/// of [`get_config_path`].
pub fn config_file_path(home: Option<&str>) -> (res: Option<String>)
    ensures
        match home {
            Some(h) => res matches Some(p) && p@ == joined(config_dir(h@), "projects.json"@),
            None => res is None,
        },
{
    match get_config_path(home) {
        Some(dir) => Some(join_path(dir.as_str(), "projects.json")),
        None => None,
    }
}

/// The folder that holds the interface settings, or `None` where the home
/// directory is unknown.
pub fn get_ui_config_path(home: Option<&str>) -> (res: Option<String>)
    ensures
        match home {
            Some(h) => res matches Some(p) && p@ == ui_config_dir(h@),
            None => res is None,
        },
{
    match home {
        Some(h) => {
            let data = join_path(h, ".debevl");
            Some(join_path(data.as_str(), "28bevUI"))
        },
        None => None,
    }
}

/// The file that holds the interface settings: `ui.json` in the folder of
/// [`get_ui_config_path`].
pub fn ui_config_file_path(home: Option<&str>) -> (res: Option<String>)
    ensures
        match home {
            Some(h) => res matches Some(p) && p@ == joined(ui_config_dir(h@), "ui.json"@),
            None => res is None,
        },
{
    match get_ui_config_path(home) {
        Some(dir) => Some(join_path(dir.as_str(), "ui.json")),
        None => None,
    }
}

/// The folder a store game named `game_name` is cloned into, or `None`
/// where the home directory is unknown.
pub fn get_game_download_path(home: Option<&str>, game_name: &str) -> (res: Option<String>)
    ensures
        match home {
            Some(h) => res matches Some(p) && p@ == game_dir(h@, game_name@),
            None => res is None,
        },
{
    match home {
        Some(h) => {
            let data = join_path(h, ".debevl");
            let apps = join_path(data.as_str(), "apps");
            let games = join_path(apps.as_str(), "games");
            Some(join_path(games.as_str(), game_name))
        },
        None => None,
    }
}

/// The pieces of a path between its separators, in order; a path with `n`
/// separators has `n + 1` pieces, some of them empty.
pub open spec fn path_pieces(s: Seq<char>) -> Seq<Seq<char>>
    decreases s.len(),
{
    if s.len() == 0 {
        seq![Seq::<char>::empty()]
    } else {
        let prev = path_pieces(s.drop_last());
        if s.last() == '/' {
            prev.push(Seq::<char>::empty())
        } else {
            prev.update(prev.len() - 1, prev.last().push(s.last()))
        }
    }
}

/// A piece that names a folder or file: not empty, and not the current
/// folder `.`.
pub open spec fn is_named_part(p: Seq<char>) -> bool {
    p.len() > 0 && p != seq!['.']
}

/// Whether a path starts at the root.
pub open spec fn starts_at_root(s: Seq<char>) -> bool {
    s.len() > 0 && s[0] == '/'
}

/// Whether a relative path starts with the current folder: it is `.`, or
/// begins with `./`.
pub open spec fn starts_at_current(s: Seq<char>) -> bool {
    s =~= seq!['.'] || (s.len() >= 2 && s[0] == '.' && s[1] == '/')
}

/// What is left of a path once it is read as components, as Unix paths
/// are compared: whether it starts at the root, whether it starts with the
/// current folder, and its named parts in order. Repeated and trailing
/// separators, and `.` past the start, leave no trace.
pub type PathKey = (bool, bool, Seq<Seq<char>>);

/// The components of a path.
pub open spec fn path_key(s: Seq<char>) -> PathKey {
    (
        starts_at_root(s),
        starts_at_current(s),
        path_pieces(s).filter(|p: Seq<char>| is_named_part(p)),
    )
}

/// Two spellings name the same path: their components are equal.
pub open spec fn same_path(a: Seq<char>, b: Seq<char>) -> bool {
    path_key(a) == path_key(b)
}

proof fn lemma_named_push(done: Seq<Seq<char>>, p: Seq<char>)
    ensures
        done.push(p).filter(|q: Seq<char>| is_named_part(q)) == if is_named_part(p) {
            done.filter(|q: Seq<char>| is_named_part(q)).push(p)
        } else {
            done.filter(|q: Seq<char>| is_named_part(q))
        },
{
    assert(done.push(p).drop_last() =~= done);
    reveal(Seq::filter);
}

/// The components of `cs`: the two flags of [`path_key`] and the named
/// parts, each as its characters.
fn components_of(cs: &Vec<char>) -> (res: (bool, bool, Vec<Vec<char>>))
    ensures
        res.0 == starts_at_root(cs@),
        res.1 == starts_at_current(cs@),
        res.2@.map_values(|v: Vec<char>| v@) == path_pieces(cs@).filter(
            |p: Seq<char>| is_named_part(p),
        ),
{
    let n = cs.len();
    let rooted = n > 0 && cs[0] == '/';
    let current = (n == 1 && cs[0] == '.') || (n >= 2 && cs[0] == '.' && cs[1] == '/');
    let mut parts: Vec<Vec<char>> = Vec::new();
    let mut cur: Vec<char> = Vec::new();
    let mut i: usize = 0;
    let ghost mut done: Seq<Seq<char>> = Seq::empty();
    assert(cs@.take(0) =~= Seq::<char>::empty());
    assert(path_pieces(cs@.take(0)) =~= done.push(cur@));
    while i < n
        invariant
            n == cs.len(),
            i <= n,
            path_pieces(cs@.take(i as int)) == done.push(cur@),
            parts@.map_values(|v: Vec<char>| v@) == done.filter(|p: Seq<char>| is_named_part(p)),
        decreases n - i,
    {
        assert(cs@.take(i + 1).drop_last() =~= cs@.take(i as int));
        assert(cs@.take(i + 1).last() == cs@[i as int]);
        if cs[i] == '/' {
            let ghost piece = cur@;
            proof {
                lemma_named_push(done, piece);
            }
            if cur.len() > 0 && !(cur.len() == 1 && cur[0] == '.') {
                assert(is_named_part(piece));
                let ghost before = parts@;
                parts.push(cur);
                assert(parts@.map_values(|v: Vec<char>| v@) =~= before.map_values(
                    |v: Vec<char>| v@,
                ).push(piece));
            } else {
                assert(!is_named_part(piece)) by {
                    if piece.len() == 1 {
                        assert(piece =~= seq!['.']);
                    }
                }
            }
            proof {
                done = done.push(piece);
            }
            cur = Vec::new();
            assert(path_pieces(cs@.take(i + 1)) =~= done.push(cur@));
        } else {
            let ghost prev = path_pieces(cs@.take(i as int));
            cur.push(cs[i]);
            assert(prev.update(prev.len() - 1, prev.last().push(cs@[i as int])) =~= done.push(cur@));
        }
        i = i + 1;
    }
    proof {
        lemma_named_push(done, cur@);
        assert(cs@.take(n as int) =~= cs@);
    }
    let ghost piece = cur@;
    if cur.len() > 0 && !(cur.len() == 1 && cur[0] == '.') {
        let ghost before = parts@;
        parts.push(cur);
        assert(parts@.map_values(|v: Vec<char>| v@) =~= before.map_values(|v: Vec<char>| v@).push(
            piece,
        ));
    } else {
        assert(!is_named_part(piece)) by {
            if piece.len() == 1 {
                assert(piece =~= seq!['.']);
            }
        }
    }
    assert(current == starts_at_current(cs@)) by {
        if n == 1 && cs@[0] == '.' {
            assert(cs@ =~= seq!['.']);
        }
    }
    (rooted, current, parts)
}

fn same_chars(a: &Vec<char>, b: &Vec<char>) -> (res: bool)
    ensures
        res == (a@ == b@),
{
    if a.len() != b.len() {
        return false;
    }
    let mut i: usize = 0;
    while i < a.len()
        invariant
            a.len() == b.len(),
            i <= a.len(),
            forall|k: int| 0 <= k < i ==> a@[k] == b@[k],
        decreases a.len() - i,
    {
        if a[i] != b[i] {
            return false;
        }
        i = i + 1;
    }
    assert(a@ =~= b@);
    true
}

/// Whether the two spellings name the same path, compared component by
/// component: `/g/x/`, `/g//x` and `/g/./x` all name `/g/x`.
pub fn is_same_path(a: &str, b: &str) -> (res: bool)
    ensures
        res == same_path(a@, b@),
{
    let ca_chars = chars_of(a);
    let cb_chars = chars_of(b);
    let (ra, ca, pa) = components_of(&ca_chars);
    let (rb, cb, pb) = components_of(&cb_chars);
    let ghost va = pa@.map_values(|v: Vec<char>| v@);
    let ghost vb = pb@.map_values(|v: Vec<char>| v@);
    if ra != rb || ca != cb || pa.len() != pb.len() {
        assert(va.len() == pa@.len() && vb.len() == pb@.len());
        return false;
    }
    let mut i: usize = 0;
    while i < pa.len()
        invariant
            pa.len() == pb.len(),
            i <= pa.len(),
            va == pa@.map_values(|v: Vec<char>| v@),
            vb == pb@.map_values(|v: Vec<char>| v@),
            va == path_key(a@).2,
            vb == path_key(b@).2,
            forall|k: int| 0 <= k < i ==> va[k] == vb[k],
        decreases pa.len() - i,
    {
        if !same_chars(&pa[i], &pb[i]) {
            assert(va[i as int] != vb[i as int]);
            assert(path_key(a@).2 != path_key(b@).2);
            return false;
        }
        i = i + 1;
    }
    assert(va =~= vb);
    true
}

} // verus!
