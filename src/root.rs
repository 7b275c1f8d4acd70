//! Choosing the diary root: the configured `diary_path`, else `pepys` under
//! the home directory.
use crate::date::opt_text;
use crate::config::{
    is_first_separator, lookup, scan_lines, separator_at, settings_of_text, ConfigMap,
};
use crate::path::{join_path, joined_text};
use vstd::prelude::*;

verus! {

/// The configuration key that overrides the diary root.
pub open spec fn diary_path_key() -> Seq<char> {
    seq!['d', 'i', 'a', 'r', 'y', '_', 'p', 'a', 't', 'h']
}

/// The folder under the home directory that is the default diary root.
pub open spec fn default_folder() -> Seq<char> {
    seq!['p', 'e', 'p', 'y', 's']
}

/// The diary root that `settings` and the home directory `home` give.
pub open spec fn resolved_root(
    settings: Seq<(Seq<char>, Seq<char>)>,
    home: Option<Seq<char>>,
) -> Option<Seq<char>> {
    match lookup(settings, diary_path_key()) {
        Some(v) => Some(v),
        None => match home {
            Some(h) => Some(joined_text(h, default_folder())),
            None => None,
        },
    }
}

/// No diary root was configured and the home directory is unknown.
#[derive(Debug, PartialEq, Eq, Structural)]
pub struct ConfigurationError;

/// The diary root: the value of the last `diary_path` setting if there is
/// one, else `<home>/pepys`. Fails only when neither is available.
pub fn resolve_root(config: &ConfigMap, home: Option<&str>) -> (r: Result<String, ConfigurationError>)
    ensures
        r is Ok <==> resolved_root(config@, opt_text(home)) is Some,
        r matches Ok(p) ==> resolved_root(config@, opt_text(home)) == Some(p@),
{
    proof {
        reveal_strlit("diary_path");
        reveal_strlit("pepys");
    }
    let key = "diary_path";
    assert(key@ =~= diary_path_key());
    match config.get(key) {
        Some(v) => Ok(v),
        None => match home {
            Some(h) => {
                let folder = "pepys";
                assert(folder@ =~= default_folder());
                Ok(join_path(h, folder))
            },
            None => Err(ConfigurationError),
        },
    }
}

proof fn lemma_scan_single_line(t: Seq<char>)
    requires
        forall|i: int| 0 <= i < t.len() ==> t[i] != '\n',
    ensures
        scan_lines(t) == (Seq::<(Seq<char>, Seq<char>)>::empty(), t),
    decreases t.len(),
{
    if t.len() > 0 {
        lemma_scan_single_line(t.drop_last());
        assert(t.drop_last().push(t.last()) =~= t);
    }
}

/// Without configuration text there are no settings, and the diary root is
/// `pepys` under the home directory.
pub proof fn lemma_empty_config_uses_home(home: Seq<char>)
    ensures
        resolved_root(settings_of_text(Seq::empty()), Some(home)) == Some(
            joined_text(home, default_folder()),
        ),
{
    assert(!separator_at(Seq::<char>::empty(), 0));
}

/// Configuration text that is the single line `diary_path = <v>` makes `v`
/// the diary root, whatever the home directory.
pub proof fn lemma_configured_root_wins(v: Seq<char>, home: Option<Seq<char>>)
    requires
        forall|i: int| 0 <= i < v.len() ==> v[i] != '\n',
    ensures
        resolved_root(
            settings_of_text(diary_path_key() + seq![' ', '=', ' '] + v),
            home,
        ) == Some(v),
{
    let key = diary_path_key();
    let t = key + seq![' ', '=', ' '] + v;
    assert forall|i: int| 0 <= i < t.len() implies t[i] != '\n' by {
        if i >= 13 {
            assert(t[i] == v[i - 13]);
        }
    }
    lemma_scan_single_line(t);
    assert(separator_at(t, 10));
    assert forall|j: int| 0 <= j < 10 implies !#[trigger] separator_at(t, j) by {
        assert(t[j] == key[j]);
    }
    assert(is_first_separator(t, 10));
    let i = choose|i: int| is_first_separator(t, i);
    if i < 10 {
        assert(!separator_at(t, i));
    } else if i > 10 {
        assert(!separator_at(t, 10));
    }
    assert(t.subrange(0, 10) =~= key);
    assert(t.subrange(13, t.len() as int) =~= v);
    assert(settings_of_text(t) =~= seq![(key, v)]);
    assert(seq![(key, v)].drop_last() =~= Seq::<(Seq<char>, Seq<char>)>::empty());
}

} // verus!
