//! The environment variables of a sandbox.

use vstd::prelude::*;
use vstd::string::*;
use crate::paths;
use crate::paths::HostPath;
use crate::text;

verus! {

/// The position of the first variable named `key`; the length where there is none.
pub open spec fn position(env: Seq<(Seq<char>, Seq<char>)>, key: Seq<char>) -> int
    decreases env.len(),
{
    if env.len() == 0 || env[0].0 == key {
        0
    } else {
        1 + position(env.skip(1), key)
    }
}

/// The value of a variable: that of the first one with its name.
pub open spec fn lookup(env: Seq<(Seq<char>, Seq<char>)>, key: Seq<char>) -> Option<Seq<char>> {
    if position(env, key) < env.len() {
        Some(env[position(env, key)].1)
    } else {
        None
    }
}

/// The variables with `key` set to `value`: in place, or else at the end.
pub open spec fn upserted(
    env: Seq<(Seq<char>, Seq<char>)>,
    key: Seq<char>,
    value: Seq<char>,
) -> Seq<(Seq<char>, Seq<char>)> {
    let i = position(env, key);
    if i < env.len() {
        env.update(i, (key, value))
    } else {
        env.push((key, value))
    }
}

proof fn lemma_position(env: Seq<(Seq<char>, Seq<char>)>, key: Seq<char>, n: int)
    requires
        0 <= n <= env.len(),
        forall|j: int| 0 <= j < n ==> (#[trigger] env[j]).0 != key,
        n < env.len() ==> env[n].0 == key,
    ensures
        position(env, key) == n,
    decreases env.len(),
{
    if n > 0 {
        assert(env[0].0 != key);
        let rest = env.skip(1);
        assert forall|j: int| 0 <= j < n - 1 implies (#[trigger] rest[j]).0 != key by {
            assert(rest[j] == env[j + 1]);
        }
        lemma_position(rest, key, n - 1);
    }
}

pub proof fn lemma_position_bounds(env: Seq<(Seq<char>, Seq<char>)>, key: Seq<char>)
    ensures
        0 <= position(env, key) <= env.len(),
        forall|j: int| 0 <= j < position(env, key) ==> (#[trigger] env[j]).0 != key,
        position(env, key) < env.len() ==> env[position(env, key)].0 == key,
    decreases env.len(),
{
    if env.len() > 0 && env[0].0 != key {
        let rest = env.skip(1);
        lemma_position_bounds(rest, key);
        assert forall|j: int| 0 <= j < position(env, key) implies (#[trigger] env[j]).0 != key by {
            if j > 0 {
                assert(env[j] == rest[j - 1]);
            }
        }
    }
}

/// Set a variable: change the first one with its name, or add one.
pub fn upsert_env(env: &mut Vec<(String, String)>, key: &str, value: String)
    ensures
        text::pair_texts(final(env)@) == upserted(text::pair_texts(old(env)@), key@, value@),
{
    let ghost all = text::pair_texts(env@);
    let mut i: usize = 0;
    while i < env.len() && !text::same(env[i].0.as_str(), key)
        invariant
            i <= env.len(),
            all == text::pair_texts(env@),
            forall|j: int| 0 <= j < i ==> (#[trigger] all[j]).0 != key@,
        decreases env.len() - i,
    {
        assert(all[i as int].0 == env@[i as int].0@);
        i += 1;
    }
    proof {
        assert(i < env.len() ==> all[i as int].0 == env@[i as int].0@);
        lemma_position(all, key@, i as int);
    }
    if i < env.len() {
        env.set(i, (key.to_owned(), value));
        assert(text::pair_texts(env@) =~= all.update(i as int, (key@, value@)));
    } else {
        env.push((key.to_owned(), value));
        assert(text::pair_texts(env@) =~= all.push((key@, value@)));
    }
}

/// After a variable is set it has the value, and every other variable has the
/// value it had.
pub proof fn law_upsert_sets_one_variable(
    env: Seq<(Seq<char>, Seq<char>)>,
    key: Seq<char>,
    value: Seq<char>,
    other: Seq<char>,
)
    ensures
        lookup(upserted(env, key, value), key) == Some(value),
        other != key ==> lookup(upserted(env, key, value), other) == lookup(env, other),
{
    lemma_position_bounds(env, key);
    lemma_position_bounds(env, other);
    let i = position(env, key);
    let after = upserted(env, key, value);
    assert forall|j: int| 0 <= j < i implies (#[trigger] after[j]).0 != key by {
        assert(after[j] == env[j]);
    }
    lemma_position(after, key, i);
    if other != key {
        let k = position(env, other);
        if k < env.len() {
            assert(after[k] == env[k]);
            assert forall|j: int| 0 <= j < k implies (#[trigger] after[j]).0 != other by {
                assert(env[j].0 != other);
            }
            lemma_position(after, other, k);
        } else {
            assert forall|j: int| 0 <= j < after.len() implies (#[trigger] after[j]).0 != other by {
                if j < env.len() {
                    assert(env[j].0 != other);
                }
            }
            lemma_position(after, other, after.len() as int);
        }
    }
}

/// Setting a variable twice to one value is the same as setting it once.
pub proof fn law_upsert_is_idempotent(
    env: Seq<(Seq<char>, Seq<char>)>,
    key: Seq<char>,
    value: Seq<char>,
)
    ensures
        upserted(upserted(env, key, value), key, value) == upserted(env, key, value),
{
    lemma_position_bounds(env, key);
    let i = position(env, key);
    let after = upserted(env, key, value);
    assert forall|j: int| 0 <= j < i implies (#[trigger] after[j]).0 != key by {
        assert(after[j] == env[j]);
    }
    lemma_position(after, key, i);
    assert(after.update(i, (key, value)) =~= after);
}

/// The variables that point a program at its managed home, and at the directories
/// in it that programs keep their files in.
pub open spec fn home_env(env: Seq<(Seq<char>, Seq<char>)>, home: Seq<char>, windows: bool) -> Seq<
    (Seq<char>, Seq<char>),
> {
    upserted(
        upserted(
            upserted(
                upserted(env, "HOME"@, home),
                "XDG_CONFIG_HOME"@,
                paths::joined(home, ".config"@, windows),
            ),
            "XDG_DATA_HOME"@,
            paths::joined(home, ".local/share"@, windows),
        ),
        "XDG_CACHE_HOME"@,
        paths::joined(home, ".cache"@, windows),
    )
}

/// Point the sandbox at its managed home.
pub fn set_managed_home_env(
    env: &mut Vec<(String, String)>,
    managed_home: &HostPath,
    windows: bool,
) -> (r: Result<(), String>)
    ensures
        match paths::path_text(*managed_home) {
            Ok(home) => r is Ok && text::pair_texts(final(env)@) == home_env(
                text::pair_texts(old(env)@),
                home,
                windows,
            ),
            Err(e) => r matches Err(x) && x@ == e && *final(env) == *old(env),
        },
{
    let home = match paths::policy_path_string(managed_home) {
        Ok(s) => s,
        Err(e) => {
            return Err(e);
        },
    };
    let config = paths::join_text(home.as_str(), ".config", windows);
    let data = paths::join_text(home.as_str(), ".local/share", windows);
    let cache = paths::join_text(home.as_str(), ".cache", windows);
    upsert_env(env, "HOME", home);
    upsert_env(env, "XDG_CONFIG_HOME", config);
    upsert_env(env, "XDG_DATA_HOME", data);
    upsert_env(env, "XDG_CACHE_HOME", cache);
    Ok(())
}

/// Whether a path starts with a drive letter and a colon.
pub open spec fn has_drive(home: Seq<char>) -> bool {
    home.len() >= 2 && home[0] <= '\x7f' && home[1] == ':'
}

/// The roaming application data of a Windows profile.
pub open spec fn roaming_dir(home: Seq<char>) -> Seq<char> {
    paths::joined(paths::joined(home, "AppData"@, true), "Roaming"@, true)
}

/// The local application data of a Windows profile.
pub open spec fn local_dir(home: Seq<char>) -> Seq<char> {
    paths::joined(paths::joined(home, "AppData"@, true), "Local"@, true)
}

/// The directories of a Windows profile, in the order they are made in.
pub fn profile_directories(home: &str) -> (r: Vec<String>)
    ensures
        text::texts(r@) == seq![
            paths::joined(home@, ".config"@, true),
            paths::joined(paths::joined(home@, ".local"@, true), "share"@, true),
            paths::joined(home@, ".cache"@, true),
            roaming_dir(home@),
            local_dir(home@),
        ],
{
    let local = paths::join_text(home, ".local", true);
    let appdata = paths::join_text(home, "AppData", true);
    let r: Vec<String> = vec![
        paths::join_text(home, ".config", true),
        paths::join_text(local.as_str(), "share", true),
        paths::join_text(home, ".cache", true),
        paths::join_text(appdata.as_str(), "Roaming", true),
        paths::join_text(appdata.as_str(), "Local", true),
    ];
    assert(text::texts(r@) =~= seq![
        paths::joined(home@, ".config"@, true),
        paths::joined(paths::joined(home@, ".local"@, true), "share"@, true),
        paths::joined(home@, ".cache"@, true),
        roaming_dir(home@),
        local_dir(home@),
    ]);
    r
}

/// The further variables of a Windows profile.
pub open spec fn profile_env(env: Seq<(Seq<char>, Seq<char>)>, home: Seq<char>) -> Seq<
    (Seq<char>, Seq<char>),
> {
    let e = upserted(
        upserted(upserted(env, "USERPROFILE"@, home), "APPDATA"@, roaming_dir(home)),
        "LOCALAPPDATA"@,
        local_dir(home),
    );
    if has_drive(home) {
        upserted(upserted(e, "HOMEDRIVE"@, home.take(2)), "HOMEPATH"@, home.skip(2))
    } else {
        e
    }
}

/// Point the sandbox at the Windows profile directories of its managed home.
pub fn set_windows_profile_env(env: &mut Vec<(String, String)>, home: &str)
    ensures
        text::pair_texts(final(env)@) == profile_env(text::pair_texts(old(env)@), home@),
{
    let appdata = paths::join_text(home, "AppData", true);
    upsert_env(env, "USERPROFILE", home.to_owned());
    upsert_env(env, "APPDATA", paths::join_text(appdata.as_str(), "Roaming", true));
    upsert_env(env, "LOCALAPPDATA", paths::join_text(appdata.as_str(), "Local", true));
    let v = text::to_chars(home);
    if v.len() >= 2 && v[0] <= '\x7f' && v[1] == ':' {
        let drive = text::slice(&v, 0, 2);
        assert(drive@ =~= home@.take(2));
        upsert_env(env, "HOMEDRIVE", text::from_chars(&drive));
        let rest = text::slice(&v, 2, v.len());
        assert(rest@ =~= home@.skip(2));
        upsert_env(env, "HOMEPATH", text::from_chars(&rest));
    }
}

/// The error for a profile directory that could not be made.
pub fn profile_directory_error(shown: &str, reason: &str) -> (s: String)
    ensures
        s@ == "create managed Windows home directory '"@ + shown@ + "': "@ + reason@,
{
    "create managed Windows home directory '".to_owned().concat(shown).concat("': ").concat(reason)
}

/// A program in a managed home finds each of the four variables set, and all of
/// them lead into the home.
pub proof fn law_managed_home_env(
    env: Seq<(Seq<char>, Seq<char>)>,
    home: Seq<char>,
    windows: bool,
)
    ensures
        ({
            let e = home_env(env, home, windows);
            &&& lookup(e, "HOME"@) == Some(home)
            &&& lookup(e, "XDG_CONFIG_HOME"@) == Some(paths::joined(home, ".config"@, windows))
            &&& lookup(e, "XDG_DATA_HOME"@) == Some(paths::joined(home, ".local/share"@, windows))
            &&& lookup(e, "XDG_CACHE_HOME"@) == Some(paths::joined(home, ".cache"@, windows))
        }),
{
    let config = paths::joined(home, ".config"@, windows);
    let data = paths::joined(home, ".local/share"@, windows);
    let cache = paths::joined(home, ".cache"@, windows);
    reveal_strlit("HOME");
    reveal_strlit("XDG_CONFIG_HOME");
    reveal_strlit("XDG_DATA_HOME");
    reveal_strlit("XDG_CACHE_HOME");
    let a = upserted(env, "HOME"@, home);
    let b = upserted(a, "XDG_CONFIG_HOME"@, config);
    let c = upserted(b, "XDG_DATA_HOME"@, data);
    assert("HOME"@.len() == 4);
    assert("XDG_CONFIG_HOME"@.len() == 15);
    assert("XDG_DATA_HOME"@.len() == 13);
    assert("XDG_CACHE_HOME"@.len() == 14);
    law_upsert_sets_one_variable(env, "HOME"@, home, "HOME"@);
    law_upsert_sets_one_variable(a, "XDG_CONFIG_HOME"@, config, "HOME"@);
    law_upsert_sets_one_variable(b, "XDG_DATA_HOME"@, data, "HOME"@);
    law_upsert_sets_one_variable(c, "XDG_CACHE_HOME"@, cache, "HOME"@);
    law_upsert_sets_one_variable(b, "XDG_DATA_HOME"@, data, "XDG_CONFIG_HOME"@);
    law_upsert_sets_one_variable(c, "XDG_CACHE_HOME"@, cache, "XDG_CONFIG_HOME"@);
    law_upsert_sets_one_variable(c, "XDG_CACHE_HOME"@, cache, "XDG_DATA_HOME"@);
}

/// A variable has the value of the first one with its name.
pub proof fn law_first_variable_counts(env: Seq<(Seq<char>, Seq<char>)>, key: Seq<char>, i: int)
    requires
        0 <= i <= env.len(),
        forall|k: int| 0 <= k < i ==> (#[trigger] env[k]).0 != key,
        i < env.len() ==> env[i].0 == key,
    ensures
        lookup(env, key) == if i < env.len() {
            Some(env[i].1)
        } else {
            None
        },
{
    lemma_position(env, key, i);
}

/// Setting a variable adds one at most, at the end, and leaves the others where
/// they are.
pub proof fn law_upsert_keeps_the_order(
    env: Seq<(Seq<char>, Seq<char>)>,
    key: Seq<char>,
    value: Seq<char>,
)
    ensures
        ({
            let after = upserted(env, key, value);
            &&& lookup(env, key) is Some ==> after.len() == env.len()
            &&& lookup(env, key) is None ==> after == env.push((key, value))
            &&& forall|i: int|
                0 <= i < env.len() && (#[trigger] env[i]).0 != key ==> after[i] == env[i]
            &&& forall|i: int|
                0 <= i < env.len() ==> (#[trigger] after[i]).0 == env[i].0
        }),
{
    lemma_position_bounds(env, key);
}

/// Pointing a program at its managed home leaves every other variable as it was.
pub proof fn law_managed_home_leaves_other_variables(
    env: Seq<(Seq<char>, Seq<char>)>,
    home: Seq<char>,
    windows: bool,
    other: Seq<char>,
)
    requires
        other != "HOME"@,
        other != "XDG_CONFIG_HOME"@,
        other != "XDG_DATA_HOME"@,
        other != "XDG_CACHE_HOME"@,
    ensures
        lookup(home_env(env, home, windows), other) == lookup(env, other),
{
    let config = paths::joined(home, ".config"@, windows);
    let data = paths::joined(home, ".local/share"@, windows);
    let cache = paths::joined(home, ".cache"@, windows);
    let a = upserted(env, "HOME"@, home);
    let b = upserted(a, "XDG_CONFIG_HOME"@, config);
    let c = upserted(b, "XDG_DATA_HOME"@, data);
    law_upsert_sets_one_variable(env, "HOME"@, home, other);
    law_upsert_sets_one_variable(a, "XDG_CONFIG_HOME"@, config, other);
    law_upsert_sets_one_variable(b, "XDG_DATA_HOME"@, data, other);
    law_upsert_sets_one_variable(c, "XDG_CACHE_HOME"@, cache, other);
}

/// A Windows profile is the managed home: its application data lies in it, its
/// drive and the path on that drive are given apart where it has a drive, and no
/// other variable changes.
pub proof fn law_windows_profile_env(
    env: Seq<(Seq<char>, Seq<char>)>,
    home: Seq<char>,
    other: Seq<char>,
)
    requires
        home.len() > 2,
        home.last() != '/',
        home.last() != '\\',
    ensures
        ({
            let e = profile_env(env, home);
            &&& lookup(e, "USERPROFILE"@) == Some(home)
            &&& lookup(e, "APPDATA"@) == Some(home + "\\AppData\\Roaming"@)
            &&& lookup(e, "LOCALAPPDATA"@) == Some(home + "\\AppData\\Local"@)
            &&& home[0] as int <= 127 && home[1] == ':' ==> lookup(e, "HOMEDRIVE"@) == Some(
                seq![home[0], ':'],
            ) && lookup(e, "HOMEPATH"@) == Some(home.skip(2))
            &&& !(home[0] as int <= 127 && home[1] == ':') ==> lookup(e, "HOMEDRIVE"@) == lookup(
                env,
                "HOMEDRIVE"@,
            ) && lookup(e, "HOMEPATH"@) == lookup(env, "HOMEPATH"@)
            &&& other != "USERPROFILE"@ && other != "APPDATA"@ && other != "LOCALAPPDATA"@ && other
                != "HOMEDRIVE"@ && other != "HOMEPATH"@ ==> lookup(e, other) == lookup(env, other)
        }),
{
    reveal_strlit("USERPROFILE");
    reveal_strlit("APPDATA");
    reveal_strlit("LOCALAPPDATA");
    reveal_strlit("HOMEDRIVE");
    reveal_strlit("HOMEPATH");
    reveal_strlit("AppData");
    reveal_strlit("Roaming");
    reveal_strlit("Local");
    reveal_strlit("\\AppData\\Roaming");
    reveal_strlit("\\AppData\\Local");
    assert("USERPROFILE"@.len() == 11 && "APPDATA"@.len() == 7 && "LOCALAPPDATA"@.len() == 12
        && "HOMEDRIVE"@.len() == 9 && "HOMEPATH"@.len() == 8);
    let data = home.push('\\') + "AppData"@;
    assert(paths::joined(home, "AppData"@, true) == data);
    assert(data.last() == 'a');
    assert(data.len() > 2);
    assert(roaming_dir(home) =~= home + "\\AppData\\Roaming"@);
    assert(local_dir(home) =~= home + "\\AppData\\Local"@);
    let a = upserted(env, "USERPROFILE"@, home);
    let b = upserted(a, "APPDATA"@, roaming_dir(home));
    let c = upserted(b, "LOCALAPPDATA"@, local_dir(home));
    let keys = seq![
        "USERPROFILE"@,
        "APPDATA"@,
        "LOCALAPPDATA"@,
        "HOMEDRIVE"@,
        "HOMEPATH"@,
        other,
    ];
    assert forall|i: int| 0 <= i < 6 implies {
        let k = #[trigger] keys[i];
        &&& k != "USERPROFILE"@ && k != "APPDATA"@ && k != "LOCALAPPDATA"@ ==> lookup(c, k)
            == lookup(env, k)
        &&& k == "USERPROFILE"@ ==> lookup(c, k) == Some(home)
        &&& k == "APPDATA"@ ==> lookup(c, k) == Some(roaming_dir(home))
        &&& k == "LOCALAPPDATA"@ ==> lookup(c, k) == Some(local_dir(home))
    } by {
        let k = keys[i];
        law_upsert_sets_one_variable(env, "USERPROFILE"@, home, k);
        law_upsert_sets_one_variable(a, "APPDATA"@, roaming_dir(home), k);
        law_upsert_sets_one_variable(b, "LOCALAPPDATA"@, local_dir(home), k);
    }
    assert(keys[0] == "USERPROFILE"@ && keys[1] == "APPDATA"@ && keys[2] == "LOCALAPPDATA"@
        && keys[3] == "HOMEDRIVE"@ && keys[4] == "HOMEPATH"@ && keys[5] == other);
    if has_drive(home) {
        let d = upserted(c, "HOMEDRIVE"@, home.take(2));
        assert(home.take(2) =~= seq![home[0], ':']);
        assert forall|i: int| 0 <= i < 6 implies {
            let k = #[trigger] keys[i];
            &&& k != "HOMEDRIVE"@ && k != "HOMEPATH"@ ==> lookup(profile_env(env, home), k)
                == lookup(c, k)
            &&& k == "HOMEDRIVE"@ ==> lookup(profile_env(env, home), k) == Some(home.take(2))
            &&& k == "HOMEPATH"@ ==> lookup(profile_env(env, home), k) == Some(home.skip(2))
        } by {
            let k = keys[i];
            law_upsert_sets_one_variable(c, "HOMEDRIVE"@, home.take(2), k);
            law_upsert_sets_one_variable(d, "HOMEPATH"@, home.skip(2), k);
        }
    }
}

} // verus!
