//! Launch parameters of the supervised server: the resolved runtime paths,
//! the working directory it runs in, and the environment variables handed
//! to it.

use vstd::prelude::*;

use crate::config::ConfigData;
use crate::config::ConfigDocument;
use crate::envmap::normalize_key;
use crate::envmap::EnvVarMap;
use crate::text::dec_spec;
use crate::text::prefix_at;
use crate::text::u16_to_dec;
use crate::workdir::absolutize;
use crate::workdir::absolutize_spec;
use crate::workdir::dedup_paths;
use crate::workdir::dedup_spec;
use crate::workdir::expand_home;
use crate::workdir::expand_home_spec;
use crate::workdir::resolve_spec;
use crate::workdir::strip_verbatim;
use crate::workdir::strip_verbatim_spec;
use crate::workdir::trim;
use crate::workdir::trim_spec;

verus! {

/// The filesystem locations resolved during bootstrap.
pub struct RuntimePaths {
    /// Location of the server binary.
    pub memos_bin: String,
    /// The platform-provided resource directory.
    pub memospot_resources: String,
    /// The application's data directory.
    pub memospot_data: String,
    /// The process's own current working directory.
    pub memospot_cwd: String,
    /// The data directory handed to the server.
    pub memos_data: String,
}

/// Resolved paths and the parsed configuration document, owned by the
/// bootstrap sequence.
pub struct RuntimeConfig {
    /// Resolved filesystem paths.
    pub paths: RuntimePaths,
    /// The parsed configuration document.
    pub yaml: ConfigDocument,
}

/// The managed variables: mode, address, port and data directory from the
/// reconciled configuration, and the metrics flag pinned to `false`
/// because the upstream server dropped metrics support.
pub open spec fn managed_env(c: ConfigData, memos_data: Seq<char>) -> Map<Seq<char>, Seq<char>> {
    map![
        "MEMOS_MODE"@ => c.mode,
        "MEMOS_ADDR"@ => c.addr,
        "MEMOS_PORT"@ => dec_spec(c.port as int),
        "MEMOS_DATA"@ => memos_data,
        "MEMOS_METRIC"@ => "false"@,
    ]
}

/// The user-supplied variables, under normalized keys; a later entry for
/// the same normalized key wins.
pub open spec fn user_env_map(env: Seq<(Seq<char>, Seq<char>)>) -> Map<Seq<char>, Seq<char>>
    decreases env.len(),
{
    if env.len() == 0 {
        Map::empty()
    } else {
        user_env_map(env.drop_last()).insert(normalize_key(env.last().0), env.last().1)
    }
}

/// The final variable set: user-supplied entries overlaid by the managed
/// variables, which always win on a key collision.
pub open spec fn env_spec(c: ConfigData, memos_data: Seq<char>) -> Map<Seq<char>, Seq<char>> {
    user_env_map(c.env).union_prefer_right(managed_env(c, memos_data))
}

/// The managed keys carry the namespace prefix and are pairwise distinct.
proof fn lemma_managed_keys()
    ensures
        prefix_at("MEMOS_MODE"@, 0, crate::envmap::env_prefix()),
        prefix_at("MEMOS_ADDR"@, 0, crate::envmap::env_prefix()),
        prefix_at("MEMOS_PORT"@, 0, crate::envmap::env_prefix()),
        prefix_at("MEMOS_DATA"@, 0, crate::envmap::env_prefix()),
        prefix_at("MEMOS_METRIC"@, 0, crate::envmap::env_prefix()),
        "MEMOS_MODE"@ != "MEMOS_ADDR"@,
        "MEMOS_MODE"@ != "MEMOS_PORT"@,
        "MEMOS_MODE"@ != "MEMOS_DATA"@,
        "MEMOS_MODE"@ != "MEMOS_METRIC"@,
        "MEMOS_ADDR"@ != "MEMOS_PORT"@,
        "MEMOS_ADDR"@ != "MEMOS_DATA"@,
        "MEMOS_ADDR"@ != "MEMOS_METRIC"@,
        "MEMOS_PORT"@ != "MEMOS_DATA"@,
        "MEMOS_PORT"@ != "MEMOS_METRIC"@,
        "MEMOS_DATA"@ != "MEMOS_METRIC"@,
{
    reveal_strlit("MEMOS_");
    reveal_strlit("MEMOS_MODE");
    reveal_strlit("MEMOS_ADDR");
    reveal_strlit("MEMOS_PORT");
    reveal_strlit("MEMOS_DATA");
    reveal_strlit("MEMOS_METRIC");
    assert("MEMOS_MODE"@.subrange(0, 6) =~= "MEMOS_"@);
    assert("MEMOS_ADDR"@.subrange(0, 6) =~= "MEMOS_"@);
    assert("MEMOS_PORT"@.subrange(0, 6) =~= "MEMOS_"@);
    assert("MEMOS_DATA"@.subrange(0, 6) =~= "MEMOS_"@);
    assert("MEMOS_METRIC"@.subrange(0, 6) =~= "MEMOS_"@);
    assert("MEMOS_MODE"@[6] == 'M' && "MEMOS_ADDR"@[6] == 'A' && "MEMOS_PORT"@[6] == 'P'
        && "MEMOS_DATA"@[6] == 'D');
    assert("MEMOS_METRIC"@.len() == 12);
}

/// Prepare the environment variables for the supervised server: the
/// user-supplied entries of the configuration document under normalized
/// keys, overlaid by the managed variables.  The result is a function of
/// the document and the data path alone, so two calls on identical inputs
/// build identical maps.
pub fn prepare_env(rtcfg: &RuntimeConfig) -> (r: EnvVarMap)
    ensures
        r@ == env_spec(rtcfg.yaml@, rtcfg.paths.memos_data@),
        r.wf(),
{
    let mut env = EnvVarMap::new();
    let ghost uenv = rtcfg.yaml@.env;
    proof {
        assert(uenv.take(0) =~= Seq::<(Seq<char>, Seq<char>)>::empty());
        assert(env@ =~= user_env_map(uenv.take(0)));
    }
    let mut i: usize = 0;
    while i < rtcfg.yaml.env.len()
        invariant
            0 <= i <= rtcfg.yaml.env.len(),
            uenv == rtcfg.yaml@.env,
            rtcfg.yaml.env.len() == uenv.len(),
            env@ == user_env_map(uenv.take(i as int)),
            env.wf(),
        decreases rtcfg.yaml.env.len() - i,
    {
        let entry = &rtcfg.yaml.env[i];
        env.insert(entry.0.as_str(), entry.1.clone());
        proof {
            assert(uenv.take(i as int + 1).drop_last() =~= uenv.take(i as int));
            assert(uenv.take(i as int + 1).last() == uenv[i as int]);
            assert(uenv[i as int] == (entry.0@, entry.1@));
        }
        i += 1;
    }
    proof {
        assert(uenv.take(uenv.len() as int) =~= uenv);
        lemma_managed_keys();
    }
    env.insert_exact("MEMOS_MODE".to_owned(), rtcfg.yaml.mode.clone());
    env.insert_exact("MEMOS_ADDR".to_owned(), rtcfg.yaml.addr.clone());
    env.insert_exact("MEMOS_PORT".to_owned(), u16_to_dec(rtcfg.yaml.port));
    env.insert_exact("MEMOS_DATA".to_owned(), rtcfg.paths.memos_data.clone());
    env.insert_exact("MEMOS_METRIC".to_owned(), "false".to_owned());
    proof {
        assert(env@ =~= env_spec(rtcfg.yaml@, rtcfg.paths.memos_data@));
    }
    env
}

/// Whatever the user-supplied entries hold, the managed port, address,
/// mode, data and metrics values win in the final variable set.
pub proof fn lemma_managed_wins(c: ConfigData, memos_data: Seq<char>)
    ensures
        env_spec(c, memos_data)["MEMOS_MODE"@] == c.mode,
        env_spec(c, memos_data)["MEMOS_ADDR"@] == c.addr,
        env_spec(c, memos_data)["MEMOS_PORT"@] == dec_spec(c.port as int),
        env_spec(c, memos_data)["MEMOS_DATA"@] == memos_data,
        env_spec(c, memos_data)["MEMOS_METRIC"@] == "false"@,
{
    lemma_managed_keys();
}

/// The file name of the server binary on the given platform.
pub fn server_binary_name(windows: bool) -> (r: &'static str)
    ensures
        windows ==> r@ == "memos.exe"@,
        !windows ==> r@ == "memos"@,
{
    if windows {
        "memos.exe"
    } else {
        "memos"
    }
}

/// The mode the server runs in: the demo mode in a development build, so
/// it does not interfere with a production instance's data; the configured
/// mode otherwise.
pub fn select_mode(mode: &str, dev: bool) -> (r: String)
    ensures
        dev ==> r@ == "demo"@,
        !dev ==> r@ == mode@,
{
    if dev {
        "demo".to_owned()
    } else {
        mode.to_owned()
    }
}

/// The candidate contributed by a user-configured working directory:
/// trimmed, home-expanded and made absolute; none when blank.
pub open spec fn user_candidates(wd: Option<Seq<char>>, home: Seq<char>, cwd: Seq<char>) -> Seq<
    Seq<char>,
> {
    match wd {
        None => Seq::empty(),
        Some(w) => {
            let t = trim_spec(w);
            if t.len() == 0 {
                Seq::empty()
            } else {
                seq![absolutize_spec(expand_home_spec(t, home), cwd)]
            }
        },
    }
}

/// The candidate working directories, in precedence order and
/// deduplicated: the user-configured directory, the resource directory
/// with any verbatim prefix stripped, the data directory, and the
/// process's own working directory.
pub open spec fn candidates_spec(
    wd: Option<Seq<char>>,
    home: Seq<char>,
    resources: Seq<char>,
    data: Seq<char>,
    cwd: Seq<char>,
) -> Seq<Seq<char>> {
    dedup_spec(
        user_candidates(wd, home, cwd) + seq![strip_verbatim_spec(resources), data, cwd],
    )
}

/// Collect the candidate working directories for the supervised server.
pub fn get_cwd_candidates(rtcfg: &RuntimeConfig, home: &str) -> (r: Vec<String>)
    ensures
        r.deep_view() == candidates_spec(
            rtcfg.yaml@.working_dir,
            home@,
            rtcfg.paths.memospot_resources@,
            rtcfg.paths.memospot_data@,
            rtcfg.paths.memospot_cwd@,
        ),
{
    let ghost wd = rtcfg.yaml@.working_dir;
    let mut paths: Vec<String> = Vec::new();
    match &rtcfg.yaml.working_dir {
        Some(w) => {
            let t = trim(w.as_str());
            if t.unicode_len() > 0 {
                let expanded = expand_home(t, home);
                let absolute = absolutize(expanded.as_str(), rtcfg.paths.memospot_cwd.as_str());
                paths.push(absolute);
            }
        },
        None => {},
    }
    paths.push(strip_verbatim(rtcfg.paths.memospot_resources.as_str()));
    paths.push(rtcfg.paths.memospot_data.clone());
    paths.push(rtcfg.paths.memospot_cwd.clone());
    proof {
        assert(paths.deep_view() =~= user_candidates(wd, home@, rtcfg.paths.memospot_cwd@)
            + seq![
            strip_verbatim_spec(rtcfg.paths.memospot_resources@),
            rtcfg.paths.memospot_data@,
            rtcfg.paths.memospot_cwd@,
        ]);
    }
    dedup_paths(&paths)
}

/// Decide which working directory the supervised server runs in: the
/// first non-empty candidate whose marker flag is set; the application's
/// data directory when none qualifies.
pub fn get_cwd(rtcfg: &RuntimeConfig, candidates: &Vec<String>, has_marker: &Vec<bool>) -> (r:
    String)
    requires
        candidates.len() == has_marker.len(),
    ensures
        r@ == resolve_spec(candidates.deep_view(), has_marker@, rtcfg.paths.memospot_data@),
{
    let ghost full = candidates.deep_view();
    let ghost marks = has_marker@;
    let ghost fb = rtcfg.paths.memospot_data@;
    proof {
        assert(full.skip(0) =~= full);
        assert(marks.skip(0) =~= marks);
    }
    let mut i: usize = 0;
    while i < candidates.len()
        invariant
            0 <= i <= candidates.len(),
            full == candidates.deep_view(),
            marks == has_marker@,
            fb == rtcfg.paths.memospot_data@,
            candidates.len() == full.len(),
            has_marker.len() == marks.len(),
            full.len() == marks.len(),
            resolve_spec(full, marks, fb) == resolve_spec(
                full.skip(i as int),
                marks.skip(i as int),
                fb,
            ),
        decreases candidates.len() - i,
    {
        proof {
            assert(full.skip(i as int)[0] == full[i as int]);
            assert(marks.skip(i as int)[0] == marks[i as int]);
            assert(full.skip(i as int).drop_first() =~= full.skip(i as int + 1));
            assert(marks.skip(i as int).drop_first() =~= marks.skip(i as int + 1));
        }
        if candidates[i].as_str().unicode_len() > 0 && has_marker[i] {
            proof {
                assert(full[i as int] == candidates@[i as int]@);
                assert(full[i as int].len() > 0);
                let ghost ii = i as int;
                assert(resolve_spec(full.skip(ii), marks.skip(ii), fb) == full[ii]);
            }
            return candidates[i].clone();
        }
        i += 1;
    }
    proof {
        assert(full.skip(full.len() as int) =~= Seq::<Seq<char>>::empty());
    }
    rtcfg.paths.memospot_data.clone()
}

} // verus!
