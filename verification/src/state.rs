//! Where the state of a chain is kept.
use vstd::prelude::*;

use crate::text;

verus! {

/// A path below another: one that starts at the root stands for itself.
pub open spec fn path_below(base: Seq<char>, path: Seq<char>) -> Seq<char> {
    if path.len() > 0 && path[0] == '/' {
        path
    } else if base.len() == 0 || base.last() == '/' {
        base + path
    } else {
        base + "/"@ + path
    }
}

/// The directory for data: the one that was set, else the usual one below the
/// home directory.
pub open spec fn data_dir(data_home: Option<&str>, home: Option<&str>) -> Seq<char> {
    match data_home {
        Some(dir) => dir@,
        None => path_below(
            match home {
                Some(dir) => dir@,
                None => "."@,
            },
            ".local/share"@,
        ),
    }
}

/// A path below another.
pub fn join_path(base: &str, path: &str) -> (r: String)
    ensures
        r@ == path_below(base@, path@),
{
    proof {
        reveal_strlit("/");
    }
    let n: usize = base.unicode_len();
    if path.unicode_len() > 0 && path.get_char(0) == '/' {
        path.to_owned()
    } else if n == 0 || base.get_char(n - 1) == '/' {
        text::join(base, path)
    } else {
        let mut r = text::join(base, "/");
        r.append(path);
        r
    }
}

/// The directory for the state of a chain. `data_home` and `home` are what the
/// environment says, where it says anything.
pub fn state_dir_for(data_home: Option<&str>, home: Option<&str>, chain_name: &str) -> (r: String)
    ensures
        r@ == path_below(
            path_below(data_dir(data_home, home), "broken_nest"@),
            chain_name@,
        ),
{
    let base = match data_home {
        Some(dir) => dir.to_owned(),
        None => {
            let home = match home {
                Some(dir) => dir,
                None => ".",
            };
            join_path(home, ".local/share")
        },
    };
    let ours = join_path(base.as_str(), "broken_nest");
    join_path(ours.as_str(), chain_name)
}

/// The file for the control values of a plugin.
pub fn controls_path(state_dir: &str, plugin_name: &str) -> (r: String)
    ensures
        r@ == path_below(state_dir@, plugin_name@ + ".toml"@),
{
    let file = text::join(plugin_name, ".toml");
    join_path(state_dir, file.as_str())
}

/// The directory for the state of a chain ends with the name of the chain below
/// that of this program, where the name starts at no root.
pub proof fn state_dir_ends_with_name(data_home: Option<&str>, home: Option<&str>, name: Seq<char>)
    requires
        name.len() == 0 || name[0] != '/',
    ensures
        ("broken_nest/"@ + name).is_suffix_of(
            path_below(path_below(data_dir(data_home, home), "broken_nest"@), name),
        ),
{
    reveal_strlit("broken_nest/");
    reveal_strlit("broken_nest");
    reveal_strlit("/");
    let base = path_below(data_dir(data_home, home), "broken_nest"@);
    assert("broken_nest/"@ =~= "broken_nest"@ + "/"@);
    assert("broken_nest"@.is_suffix_of(base)) by {
        assert(base.subrange(base.len() - 11, base.len() as int) =~= "broken_nest"@);
    }
    assert(base.last() == 't');
    let whole = path_below(base, name);
    assert(whole == base + "/"@ + name);
    let tail = "broken_nest/"@ + name;
    assert(whole.subrange(whole.len() - tail.len(), whole.len() as int) =~= tail) by {
        assert forall|i: int| 0 <= i < 11 implies base[base.len() - 11 + i] == "broken_nest"@[i] by {
            assert(base.subrange(base.len() - 11, base.len() as int)[i] == base[base.len() - 11
                + i]);
        }
    }
}

/// A path below a directory is that of the directory, with one slash between them, unless
/// the path begins at the root: then it stands alone.
pub proof fn path_stands_below(base: Seq<char>, path: Seq<char>)
    requires
        base.len() > 0,
    ensures
        path.len() > 0 && path[0] == '/' ==> path_below(base, path) == path,
        !(path.len() > 0 && path[0] == '/') ==> {
            &&& base.is_prefix_of(path_below(base, path))
            &&& path.is_suffix_of(path_below(base, path))
            &&& path_below(base, path)[path_below(base, path).len() - path.len() - 1] == '/'
            &&& path_below(base, path).len() == base.len() + path.len() + if base.last() == '/' {
                0int
            } else {
                1int
            }
        },
{
    reveal_strlit("/");
    let all = path_below(base, path);
    if !(path.len() > 0 && path[0] == '/') {
        assert(base =~= all.take(base.len() as int));
        assert(path =~= all.skip(all.len() - path.len()));
    }
}

/// Data is kept where the user says, else below the home directory, else here.
pub proof fn data_is_kept(data_home: Option<&str>, home: Option<&str>)
    ensures
        data_home matches Some(dir) ==> data_dir(data_home, home) == dir@,
        data_home is None ==> (home matches Some(dir) ==> dir@.len() > 0 && dir@.last() != '/'
            ==> data_dir(data_home, home) == dir@ + "/"@ + ".local/share"@),
        data_home is None && home is None ==> data_dir(data_home, home) == "."@ + "/"@
            + ".local/share"@,
{
    reveal_strlit(".local/share");
    reveal_strlit(".");
}

/// [`state_dir_for`] keeps the state of a chain in a directory of its name, below one of the
/// program, below that for data.
pub proof fn state_is_kept_below_data(
    data_home: &str,
    home: Option<&str>,
    chain_name: &str,
    r: String,
)
    requires
        call_ensures(state_dir_for, (Some(data_home), home, chain_name), r),
        data_home@.len() > 0,
        data_home@.last() != '/',
        chain_name@.len() == 0 || chain_name@[0] != '/',
    ensures
        r@ == data_home@ + "/"@ + "broken_nest"@ + "/"@ + chain_name@,
{
    reveal_strlit("broken_nest");
    reveal_strlit("/");
    let inner = data_home@ + "/"@ + "broken_nest"@;
    assert(inner.last() == "broken_nest"@.last());
}

/// [`controls_path`] keeps the controls of a plugin in a file of its name.
pub proof fn controls_are_kept_by_name(state_dir: &str, plugin_name: &str, r: String)
    requires
        call_ensures(controls_path, (state_dir, plugin_name), r),
        state_dir@.len() > 0,
        state_dir@.last() != '/',
        plugin_name@.len() > 0,
        plugin_name@[0] != '/',
    ensures
        r@ == state_dir@ + "/"@ + plugin_name@ + ".toml"@,
{
    let file = plugin_name@ + ".toml"@;
    assert(file[0] == plugin_name@[0]);
    assert(state_dir@ + "/"@ + file =~= state_dir@ + "/"@ + plugin_name@ + ".toml"@);
}

/// [`join_path`] puts a path below a directory, with one slash between them, unless the path
/// begins at the root.
pub proof fn joined_path_stands_below(base: &str, path: &str, r: String)
    requires
        call_ensures(join_path, (base, path), r),
        base@.len() > 0,
    ensures
        path@.len() > 0 && path@[0] == '/' ==> r@ == path@,
        !(path@.len() > 0 && path@[0] == '/') ==> base@.is_prefix_of(r@) && path@.is_suffix_of(r@)
            && r@[r@.len() - path@.len() - 1] == '/',
{
    path_stands_below(base@, path@);
}

} // verus!
