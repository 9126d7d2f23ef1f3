//! Run options: the disk folders given on the command line and the folders
//! derived from the tool's home folder.

use vstd::prelude::*;

use crate::error::{Error, Errors};
use crate::text::{chars_of, join, join_path, push_str, string_of};

verus! {

/// The environment variable that names the tool's home folder.
pub const HOME_ENV: &'static str = "BCBCHOME";

/// The output folder, under the home folder.
pub const OUTPUT_FOLDER_NAME: &'static str = "out";

/// The configuration folder, under the home folder.
pub const CONFIG_FOLDER_NAME: &'static str = "configs";

/// The value of the variable `name` in `envs`: the first entry with that name.
pub open spec fn env_lookup(envs: Seq<(String, String)>, name: Seq<char>) -> Option<Seq<char>>
    decreases envs.len(),
{
    if envs.len() == 0 {
        None
    } else if envs[0].0@ == name {
        Some(envs[0].1@)
    } else {
        env_lookup(envs.drop_first(), name)
    }
}

/// `p` with a leading `~` component replaced by the home folder `home`;
/// `None` where that is needed and the home folder is unknown.
pub open spec fn expand_tilde(p: Seq<char>, home: Option<Seq<char>>) -> Option<Seq<char>> {
    if p.len() > 0 && p[0] == '~' && (p.len() == 1 || p[1] == '/') {
        match home {
            Some(h) => Some(
                if p.len() == 1 {
                    h
                } else {
                    join_path(h, p.skip(2))
                },
            ),
            None => None,
        }
    } else {
        Some(p)
    }
}

/// The message for a missing environment variable.
pub open spec fn missing_env_message(name: Seq<char>) -> Seq<char> {
    "the environment variable is not set: "@ + name
}

/// The value of the variable `env_name` in `envs`.
pub fn require_env<'a>(envs: &'a Vec<(String, String)>, env_name: &str) -> (r: Result<&'a String, Errors>)
    ensures
        env_lookup(envs@, env_name@) matches Some(v) ==> (r matches Ok(s) && s@ == v),
        env_lookup(envs@, env_name@) is None ==> (r matches Err(es) && es.len() == 1
            && es[0].spec_message() == missing_env_message(env_name@)),
{
    let mut name = String::new();
    push_str(&mut name, env_name);
    let mut i: usize = 0;
    assert(envs@.skip(0) == envs@);
    while i < envs.len()
        invariant
            i <= envs.len(),
            name@ == env_name@,
            env_lookup(envs@, env_name@) == env_lookup(envs@.skip(i as int), env_name@),
        decreases envs.len() - i,
    {
        assert(envs@.skip(i as int)[0] == envs@[i as int]);
        assert(envs@.skip(i as int).drop_first() == envs@.skip(i + 1));
        if envs[i].0 == name {
            return Ok(&envs[i].1);
        }
        i = i + 1;
    }
    let mut message = String::new();
    push_str(&mut message, "the environment variable is not set: ");
    push_str(&mut message, env_name);
    Err(Error::new(message.as_str()).as_errors())
}

/// Relies on `dirs::home_dir`: the current user's home folder where the
/// platform gives one; it depends on the environment, so nothing is promised
/// of it.
#[verifier::external_body]
fn home_dir() -> (r: Option<String>) {
    match dirs::home_dir() {
        Some(p) => match p.to_str() {
            Some(s) => Some(s.to_string()),
            None => None,
        },
        None => None,
    }
}

/// `path` with a leading `~` component replaced by `home`.
pub fn tilde_to_home(path: &str, home: &Option<String>) -> (r: Option<String>)
    ensures
        match r {
            Some(s) => expand_tilde(path@, opt_text(*home)) == Some(s@),
            None => expand_tilde(path@, opt_text(*home)) is None,
        },
{
    let cs = chars_of(path);
    if cs.len() > 0 && cs[0] == '~' && (cs.len() == 1 || cs[1] == '/') {
        match home {
            Some(h) => {
                if cs.len() == 1 {
                    let mut r = String::new();
                    push_str(&mut r, h.as_str());
                    Some(r)
                } else {
                    let mut rest: Vec<char> = Vec::new();
                    let mut i: usize = 2;
                    while i < cs.len()
                        invariant
                            2 <= i <= cs.len(),
                            rest@ == cs@.subrange(2, i as int),
                        decreases cs.len() - i,
                    {
                        rest.push(cs[i]);
                        assert(cs@.subrange(2, i + 1) == cs@.subrange(2, i as int).push(cs@[i as int]));
                        i = i + 1;
                    }
                    assert(rest@ == path@.skip(2));
                    let rest = string_of(&rest);
                    Some(join(h.as_str(), rest.as_str()))
                }
            },
            None => None,
        }
    } else {
        let mut r = String::new();
        push_str(&mut r, path);
        Some(r)
    }
}

/// The characters of an optional string.
pub open spec fn opt_text(o: Option<String>) -> Option<Seq<char>> {
    match o {
        Some(s) => Some(s@),
        None => None,
    }
}

/// The disk folders that `args` name (all but the first), with `home`
/// replacing a leading `~`, all of them where each can be expanded.
pub open spec fn roots_ok(args: Seq<String>, home: Option<Seq<char>>) -> bool {
    forall|i: int| 1 <= i < args.len() ==> expand_tilde((#[trigger] args[i])@, home) is Some
}

/// What the options of a run are for the current folder `current`, the
/// command line `args`, the environment `envs` and the user's home folder
/// `home`: they exist exactly where `BCBCHOME` is set and every path can be
/// expanded; then the disk folders are the expanded arguments after the
/// first, and the output and configuration folders lie under the expanded
/// `BCBCHOME`. A failure is one error.
pub open spec fn options_for(
    current: Seq<char>,
    args: Seq<String>,
    envs: Seq<(String, String)>,
    home: Option<Seq<char>>,
    r: Result<RunOptions, Errors>,
) -> bool {
    &&& r is Ok <==> env_lookup(envs, HOME_ENV@) is Some && roots_ok(args, home) && expand_tilde(
        env_lookup(envs, HOME_ENV@)->0,
        home,
    ) is Some
    &&& r matches Err(es) ==> es.len() == 1
    &&& r matches Ok(o) ==> {
        &&& o.spec_current_folder() == current
        &&& o.spec_envs() == envs
        &&& o.spec_disk_roots().len() == if args.len() > 0 {
            args.len() - 1
        } else {
            0
        }
        &&& forall|i: int|
            0 <= i < o.spec_disk_roots().len() ==> Some(#[trigger] o.spec_disk_roots()[i])
                == expand_tilde(args[i + 1]@, home)
        &&& expand_tilde(env_lookup(envs, HOME_ENV@)->0, home) matches Some(hh)
            && o.spec_output_folder() == join_path(hh, OUTPUT_FOLDER_NAME@)
            && o.spec_config_folder() == join_path(hh, CONFIG_FOLDER_NAME@)
    }
}

/// The options of one run.
pub struct RunOptions {
    /// The folder the tool was started in.
    pub current_folder: String,
    output_folder: String,
    config_folder: String,
    disk_roots: Vec<String>,
    envs: Vec<(String, String)>,
}

impl RunOptions {
    pub closed spec fn spec_current_folder(&self) -> Seq<char> {
        self.current_folder@
    }

    pub closed spec fn spec_output_folder(&self) -> Seq<char> {
        self.output_folder@
    }

    pub closed spec fn spec_config_folder(&self) -> Seq<char> {
        self.config_folder@
    }

    pub closed spec fn spec_disk_roots(&self) -> Seq<Seq<char>> {
        self.disk_roots@.map_values(|s: String| s@)
    }

    pub closed spec fn spec_envs(&self) -> Seq<(String, String)> {
        self.envs@
    }

    /// The options for the command line `args` (the program first, then disk
    /// folders) and the environment `envs`, where `home` is the user's home
    /// folder if known. The home folder of the tool comes from `BCBCHOME`.
    pub fn with_home(
        current_folder: String,
        args: Vec<String>,
        envs: Vec<(String, String)>,
        home: Option<String>,
    ) -> (r: Result<RunOptions, Errors>)
        ensures
            options_for(current_folder@, args@, envs@, opt_text(home), r),
    {
        let mut disk_roots: Vec<String> = Vec::new();
        let mut i: usize = 1;
        while i < args.len()
            invariant
                1 <= i,
                i <= args.len() || (args.len() == 0 && i == 1),
                disk_roots.len() == i - 1,
                forall|k: int|
                    0 <= k < disk_roots.len() ==> Some((#[trigger] disk_roots@[k])@) == expand_tilde(
                        args@[k + 1]@,
                        opt_text(home),
                    ),
                forall|k: int| 1 <= k < i ==> expand_tilde((#[trigger] args@[k])@, opt_text(home)) is Some,
            decreases args.len() - i,
        {
            match tilde_to_home(args[i].as_str(), &home) {
                Some(p) => disk_roots.push(p),
                None => {
                    return Err(Error::new("the home folder is unknown").as_errors());
                },
            }
            i = i + 1;
        }
        let home_folder = match require_env(&envs, HOME_ENV) {
            Ok(h) => h,
            Err(es) => {
                return Err(es);
            },
        };
        let home_folder = match tilde_to_home(home_folder.as_str(), &home) {
            Some(h) => h,
            None => {
                return Err(Error::new("the home folder is unknown").as_errors());
            },
        };
        let output_folder = join(home_folder.as_str(), OUTPUT_FOLDER_NAME);
        let config_folder = join(home_folder.as_str(), CONFIG_FOLDER_NAME);
        let r = RunOptions { current_folder, output_folder, config_folder, disk_roots, envs };
        assert(forall|k: int| 0 <= k < r.disk_roots.len() ==> r.spec_disk_roots()[k] == r.disk_roots@[k]@);
        assert(r.spec_disk_roots().len() == if args.len() > 0 { args.len() - 1 } else { 0 });
        assert(forall|k: int|
            0 <= k < r.spec_disk_roots().len() ==> Some(#[trigger] r.spec_disk_roots()[k])
                == expand_tilde(args@[k + 1]@, opt_text(home)));
        assert(r.spec_output_folder() == join_path(home_folder@, OUTPUT_FOLDER_NAME@));
        Ok(r)
    }

    /// The options for the command line `args` and the environment `envs`,
    /// with the current user's home folder as the platform gives it.
    pub fn new(current_folder: String, args: Vec<String>, envs: Vec<(String, String)>) -> (r: Result<
        RunOptions,
        Errors,
    >)
        ensures
            exists|home: Option<Seq<char>>| options_for(current_folder@, args@, envs@, home, r),
    {
        let home = home_dir();
        let r = RunOptions::with_home(current_folder, args, envs, home);
        assert(options_for(current_folder@, args@, envs@, opt_text(home), r));
        r
    }

    /// The folder the tool was started in.
    pub fn current_folder(&self) -> (r: &str)
        ensures
            r@ == self.spec_current_folder(),
    {
        self.current_folder.as_str()
    }

    /// The output folder.
    pub fn output_folder(&self) -> (r: &str)
        ensures
            r@ == self.spec_output_folder(),
    {
        self.output_folder.as_str()
    }

    /// The configuration folder.
    pub fn config_folder(&self) -> (r: &str)
        ensures
            r@ == self.spec_config_folder(),
    {
        self.config_folder.as_str()
    }

    /// The disk folders given on the command line.
    pub fn disk_roots(&self) -> (r: &Vec<String>)
        ensures
            r@.map_values(|s: String| s@) == self.spec_disk_roots(),
    {
        &self.disk_roots
    }

    /// The value of the environment variable `env_name`.
    pub fn required_env(&self, env_name: &str) -> (r: Result<&String, Errors>)
        ensures
            env_lookup(self.spec_envs(), env_name@) matches Some(v) ==> (r matches Ok(s) && s@ == v),
            env_lookup(self.spec_envs(), env_name@) is None ==> (r matches Err(es) && es.len() == 1),
    {
        require_env(&self.envs, env_name)
    }
}

} // verus!
