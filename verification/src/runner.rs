//! Finding RetroArch and planning a launch.
//!
//! RetroArch is looked for in a fixed order: a path chosen in the
//! interface, then `RETROARCH`, then a copy shipped with Den or installed
//! by it, then the system. What each place holds is found out by looking
//! at the disk, which the program around this library does; what is
//! decided from those answers, and what a launch hands RetroArch, is here.

use vstd::prelude::*;
use crate::db::{Game, signed_dec, signed_decimal};
use crate::locate::{
    Platform, binary_names, binary_names_spec, core_argument, core_file_spec, first_found, first_present,
    opt_str, opt_view, push_joined, push_owned, strings_of_strs, under_each,
};
use crate::path::{join, push};
use crate::shelve::strings;
use crate::text::{chars_of, push_chars, push_str, string_from_chars};

verus! {

broadcast use vstd::string::group_string_axioms;

/// Why a launch did not happen.
#[derive(Debug)]
pub enum RunnerError {
    /// No RetroArch could be found anywhere Den knows to look.
    NotFound,
    /// `RETROARCH` is set, and points at something that cannot be run.
    OverrideNotRunnable(String, &'static str),
    /// A path was chosen in the interface and no longer works.
    ChosenNotRunnable(String, &'static str),
    /// RetroArch is there, but the core this game needs is not installed.
    CoreMissing {
        /// The libretro core Den asked for.
        core: String,
        /// The directory it looked in.
        dir: String,
    },
    /// The filesystem or the spawn said no.
    Io(String),
    /// Anything else worth a sentence.
    Other(String),
}

/// The sentence a runner error is shown as.
pub open spec fn runner_message(e: RunnerError) -> Seq<char> {
    match e {
        RunnerError::NotFound =>
            "RetroArch was not found. Install it and put `retroarch` on your PATH, or set the RETROARCH environment variable to the binary."@,
        RunnerError::OverrideNotRunnable(p, w) => "RETROARCH is set to `"@ + p@ + "`, which "@ + w@,
        RunnerError::ChosenNotRunnable(p, w) => "the chosen RetroArch, `"@ + p@ + "`, "@ + w@,
        RunnerError::CoreMissing { core, dir } => "the `"@ + core@
            + "` core is not installed. RetroArch downloads cores itself: open it, then Main Menu -> Online Updater -> Core Downloader, and get `"@
            + core@ + "`. Den looked in "@ + dir@,
        RunnerError::Io(m) => "io error: "@ + m@,
        RunnerError::Other(m) => m@,
    }
}

impl RunnerError {
    /// The error as a sentence.
    pub fn message(&self) -> (r: String)
        ensures
            r@ == runner_message(*self),
    {
        let mut v: Vec<char> = Vec::new();
        match self {
            RunnerError::NotFound => {
                push_str(
                    &mut v,
                    "RetroArch was not found. Install it and put `retroarch` on your PATH, or set the RETROARCH environment variable to the binary.",
                );
            },
            RunnerError::OverrideNotRunnable(p, w) => {
                push_str(&mut v, "RETROARCH is set to `");
                push_str(&mut v, p.as_str());
                push_str(&mut v, "`, which ");
                push_str(&mut v, w);
            },
            RunnerError::ChosenNotRunnable(p, w) => {
                push_str(&mut v, "the chosen RetroArch, `");
                push_str(&mut v, p.as_str());
                push_str(&mut v, "`, ");
                push_str(&mut v, w);
            },
            RunnerError::CoreMissing { core, dir } => {
                push_str(&mut v, "the `");
                push_str(&mut v, core.as_str());
                push_str(
                    &mut v,
                    "` core is not installed. RetroArch downloads cores itself: open it, then Main Menu -> Online Updater -> Core Downloader, and get `",
                );
                push_str(&mut v, core.as_str());
                push_str(&mut v, "`. Den looked in ");
                push_str(&mut v, dir.as_str());
            },
            RunnerError::Io(m) => {
                push_str(&mut v, "io error: ");
                push_str(&mut v, m.as_str());
            },
            RunnerError::Other(m) => {
                push_str(&mut v, m.as_str());
            },
        }
        string_from_chars(&v)
    }
}

/// How the RetroArch in hand was arrived at, so the interface can say.
#[derive(Debug, Clone, Copy, PartialEq, Eq, Structural)]
pub enum Source {
    /// Picked in the interface and kept with the library.
    Chosen,
    /// Named by the `RETROARCH` environment variable.
    Environment,
    /// Shipped inside this copy of Den.
    Bundled,
    /// Found already installed on the machine.
    System,
}

/// The word the interface shows for a source.
pub open spec fn source_word(s: Source) -> Seq<char> {
    match s {
        Source::Chosen => "chosen"@,
        Source::Environment => "environment"@,
        Source::Bundled => "bundled"@,
        Source::System => "system"@,
    }
}

impl Source {
    /// The word the interface shows for this source.
    pub fn word(self) -> (r: &'static str)
        ensures
            r@ == source_word(self),
    {
        match self {
            Source::Chosen => "chosen",
            Source::Environment => "environment",
            Source::Bundled => "bundled",
            Source::System => "system",
        }
    }
}

/// A RetroArch Den can launch, and how it was found.
#[derive(Debug, Clone)]
pub struct Found {
    /// The binary itself.
    pub path: String,
    /// Where it came from.
    pub source: Source,
}

/// What a look at one named path found: the absolute path when it can be
/// run, and otherwise why not.
pub struct Check {
    pub runnable: Option<String>,
    pub why: &'static str,
}

/// Where RetroArch keeps session state for this library.
pub struct Runner {
    /// Where the private per-session configs are written.
    pub config_dir: String,
    /// Where RetroArch is pointed for battery saves.
    pub save_dir: String,
    /// Where RetroArch is pointed for save states.
    pub state_dir: String,
    /// A copy of RetroArch Den keeps for itself, under the library.
    managed_dir: String,
    /// A path chosen in the interface, which outranks every search.
    chosen: Option<String>,
    /// Where this build of Den keeps the RetroArch shipped inside it.
    bundled: Option<String>,
}

/// The first answer of a list of looks that found something runnable.
pub open spec fn first_some(v: Seq<Option<Seq<char>>>) -> Option<Seq<char>>
    decreases v.len(),
{
    if v.len() == 0 {
        None
    } else {
        match v[0] {
            Some(p) => Some(p),
            None => first_some(v.drop_first()),
        }
    }
}

/// The views of a list of looks.
pub open spec fn looks(v: Seq<Option<String>>) -> Seq<Option<Seq<char>>> {
    v.map_values(|o: Option<String>| opt_view(o))
}

fn first_runnable(v: &Vec<Option<String>>) -> (r: Option<String>)
    ensures
        opt_view(r) == first_some(looks(v@)),
{
    let mut i: usize = 0;
    assert(looks(v@).skip(0) =~= looks(v@));
    while i < v.len()
        invariant
            i <= v@.len(),
            first_some(looks(v@)) == first_some(looks(v@).skip(i as int)),
        decreases v@.len() - i,
    {
        let ghost rest = looks(v@).skip(i as int);
        assert(rest.drop_first() =~= looks(v@).skip(i + 1));
        assert(rest[0] == opt_view(v@[i as int]));
        match &v[i] {
            Some(p) => {
                return Some(p.clone());
            },
            None => {},
        }
        i += 1;
    }
    assert(looks(v@).skip(i as int) =~= Seq::<Option<Seq<char>>>::empty());
    None
}

/// Every binary name under every directory, directory by directory.
pub open spec fn bundled_binaries_spec(dirs: Seq<Seq<char>>, names: Seq<Seq<char>>) -> Seq<Seq<char>>
    decreases dirs.len(),
{
    if dirs.len() == 0 {
        Seq::<Seq<char>>::empty()
    } else {
        bundled_binaries_spec(dirs.drop_last(), names) + under_each(dirs.last(), names)
    }
}

/// The paths a shipped or managed RetroArch may be at: each runtime
/// directory under each name RetroArch goes by.
pub fn bundled_binaries(dirs: &Vec<String>, platform: Platform) -> (r: Vec<String>)
    ensures
        strings(r@) == bundled_binaries_spec(strings(dirs@), binary_names_spec(platform)),
{
    let names = binary_names(platform);
    let mut out: Vec<String> = Vec::new();
    let mut i: usize = 0;
    while i < dirs.len()
        invariant
            i <= dirs@.len(),
            strings_of_strs(names@) == binary_names_spec(platform),
            strings(out@) == bundled_binaries_spec(strings(dirs@).take(i as int), binary_names_spec(platform)),
        decreases dirs@.len() - i,
    {
        let ghost before = strings(dirs@).take(i as int);
        let ghost o = strings(out@);
        let mut k: usize = 0;
        while k < names.len()
            invariant
                k <= names@.len(),
                i < dirs@.len(),
                strings_of_strs(names@) == binary_names_spec(platform),
                strings(out@) == o + under_each(dirs@[i as int]@, binary_names_spec(platform)).take(k as int),
            decreases names@.len() - k,
        {
            push_joined(&mut out, dirs[i].as_str(), names[k]);
            k += 1;
            assert(strings(out@) =~= o + under_each(dirs@[i as int]@, binary_names_spec(platform)).take(
                k as int,
            ));
        }
        assert(under_each(dirs@[i as int]@, binary_names_spec(platform)).take(k as int) =~= under_each(
            dirs@[i as int]@,
            binary_names_spec(platform),
        ));
        i += 1;
        assert(strings(dirs@).take(i as int).drop_last() =~= before);
    }
    assert(strings(dirs@).take(i as int) =~= strings(dirs@));
    out
}

/// Where RetroArch is, decided from what the looks found: a chosen path
/// first and alone, then `RETROARCH` alone, then the first runnable shipped
/// or managed copy, then the first runnable system install.
pub open spec fn locate_spec(
    chosen: Option<Seq<char>>,
    chosen_check: Option<Seq<char>>,
    chosen_why: Seq<char>,
    environment: Option<(Seq<char>, Option<Seq<char>>, Seq<char>)>,
    bundled: Seq<Option<Seq<char>>>,
    system: Seq<Option<Seq<char>>>,
) -> Result<(Seq<char>, Source), (Source, Seq<char>, Seq<char>)> {
    match chosen {
        Some(c) => match chosen_check {
            Some(p) => Ok((p, Source::Chosen)),
            None => Err((Source::Chosen, c, chosen_why)),
        },
        None => match environment {
            Some((raw, check, why)) => match check {
                Some(p) => Ok((p, Source::Environment)),
                None => Err((Source::Environment, raw, why)),
            },
            None => match first_some(bundled) {
                Some(p) => Ok((p, Source::Bundled)),
                None => match first_some(system) {
                    Some(p) => Ok((p, Source::System)),
                    None => Err((Source::System, Seq::<char>::empty(), Seq::<char>::empty())),
                },
            },
        },
    }
}

/// A locate result measured against `locate_spec`.
pub open spec fn locate_matches(
    r: Result<Found, RunnerError>,
    s: Result<(Seq<char>, Source), (Source, Seq<char>, Seq<char>)>,
) -> bool {
    match (r, s) {
        (Ok(f), Ok((p, src))) => f.path@ == p && f.source == src,
        (Err(RunnerError::ChosenNotRunnable(p, w)), Err((Source::Chosen, q, x))) => p@ == q && w@ == x,
        (Err(RunnerError::OverrideNotRunnable(p, w)), Err((Source::Environment, q, x))) => p@ == q && w@ == x,
        (Err(RunnerError::NotFound), Err((Source::System, _, _))) => true,
        _ => false,
    }
}

/// What a look at `RETROARCH` found, when it is set.
pub open spec fn env_view(e: Option<(String, Check)>) -> Option<(Seq<char>, Option<Seq<char>>, Seq<char>)> {
    match e {
        Some((raw, c)) => Some((raw@, opt_view(c.runnable), c.why@)),
        None => None,
    }
}

impl Runner {
    /// The chosen path, as text.
    pub closed spec fn chosen_spec(&self) -> Option<Seq<char>> {
        opt_view(self.chosen)
    }

    /// The bundled directory, as text.
    pub closed spec fn bundled_spec(&self) -> Option<Seq<char>> {
        opt_view(self.bundled)
    }

    /// The managed directory, as text.
    pub closed spec fn managed_spec(&self) -> Seq<char> {
        self.managed_dir@
    }

    /// The config directory, as text.
    pub closed spec fn config_dir_spec(&self) -> Seq<char> {
        self.config_dir@
    }

    /// The save directory, as text.
    pub closed spec fn save_dir_spec(&self) -> Seq<char> {
        self.save_dir@
    }

    /// The state directory, as text.
    pub closed spec fn state_dir_spec(&self) -> Seq<char> {
        self.state_dir@
    }

    /// A runner rooted at a library directory.
    pub fn new(library: &str, config_dir: &str) -> (r: Runner)
        ensures
            r.config_dir_spec() == config_dir@,
            r.save_dir_spec() == push(library@, "saves"@),
            r.state_dir_spec() == push(library@, "savestates"@),
            r.managed_spec() == push(library@, "_runtime"@),
            r.chosen_spec() is None,
            r.bundled_spec() is None,
    {
        Runner {
            config_dir: config_dir.to_owned(),
            save_dir: join(library, "saves"),
            state_dir: join(library, "savestates"),
            managed_dir: join(library, "_runtime"),
            chosen: None,
            bundled: None,
        }
    }

    /// Point this runner at a RetroArch somebody picked by hand.
    pub fn set_chosen(&mut self, path: Option<String>)
        ensures
            final(self).chosen_spec() == opt_view(path),
            final(self).bundled_spec() == old(self).bundled_spec(),
            final(self).managed_spec() == old(self).managed_spec(),
            final(self).config_dir_spec() == old(self).config_dir_spec(),
            final(self).save_dir_spec() == old(self).save_dir_spec(),
            final(self).state_dir_spec() == old(self).state_dir_spec(),
    {
        self.chosen = path;
    }

    /// The RetroArch chosen by hand, if there is one.
    pub fn chosen(&self) -> (r: Option<String>)
        ensures
            opt_view(r) == self.chosen_spec(),
    {
        match &self.chosen {
            Some(c) => Some(c.clone()),
            None => None,
        }
    }

    /// Where Den keeps a RetroArch of its own for this library.
    pub fn managed_dir(&self) -> (r: &str)
        ensures
            r@ == self.managed_spec(),
    {
        self.managed_dir.as_str()
    }

    /// Tell the runner where this build's bundled runtime was installed.
    pub fn set_bundled_dir(&mut self, dir: Option<String>)
        ensures
            final(self).bundled_spec() == opt_view(dir),
            final(self).chosen_spec() == old(self).chosen_spec(),
            final(self).managed_spec() == old(self).managed_spec(),
            final(self).config_dir_spec() == old(self).config_dir_spec(),
            final(self).save_dir_spec() == old(self).save_dir_spec(),
            final(self).state_dir_spec() == old(self).state_dir_spec(),
    {
        self.bundled = dir;
    }

    /// Where this build's bundled runtime is, if the shell said.
    pub fn bundled_dir(&self) -> (r: Option<String>)
        ensures
            opt_view(r) == self.bundled_spec(),
    {
        match &self.bundled {
            Some(c) => Some(c.clone()),
            None => None,
        }
    }

    /// Find RetroArch from what the looks at each place found: `chosen` is
    /// the look at the chosen path (ignored when none is chosen),
    /// `environment` the value of `RETROARCH` and the look at it, `bundled`
    /// and `system` the looks at the bundled and system candidates in order.
    /// A statement beats a search, and a broken statement is reported
    /// rather than worked around.
    pub fn locate(
        &self,
        chosen: &Check,
        environment: &Option<(String, Check)>,
        bundled: &Vec<Option<String>>,
        system: &Vec<Option<String>>,
    ) -> (r: Result<Found, RunnerError>)
        ensures
            locate_matches(
                r,
                locate_spec(
                    self.chosen_spec(),
                    opt_view(chosen.runnable),
                    chosen.why@,
                    env_view(*environment),
                    looks(bundled@),
                    looks(system@),
                ),
            ),
    {
        match &self.chosen {
            Some(c) => {
                return match &chosen.runnable {
                    Some(p) => Ok(Found { path: p.clone(), source: Source::Chosen }),
                    None => Err(RunnerError::ChosenNotRunnable(c.clone(), chosen.why)),
                };
            },
            None => {},
        }
        match environment {
            Some((raw, check)) => {
                return match &check.runnable {
                    Some(p) => Ok(Found { path: p.clone(), source: Source::Environment }),
                    None => Err(RunnerError::OverrideNotRunnable(raw.clone(), check.why)),
                };
            },
            None => {},
        }
        match first_runnable(bundled) {
            Some(p) => {
                return Ok(Found { path: p, source: Source::Bundled });
            },
            None => {},
        }
        match first_runnable(system) {
            Some(p) => Ok(Found { path: p, source: Source::System }),
            None => Err(RunnerError::NotFound),
        }
    }

    /// Whether a RetroArch binary can actually be launched, from the same
    /// looks `locate` takes.
    pub fn available(
        &self,
        chosen: &Check,
        environment: &Option<(String, Check)>,
        bundled: &Vec<Option<String>>,
        system: &Vec<Option<String>>,
    ) -> (r: bool)
        ensures
            r == locate_spec(
                self.chosen_spec(),
                opt_view(chosen.runnable),
                chosen.why@,
                env_view(*environment),
                looks(bundled@),
                looks(system@),
            ) is Ok,
    {
        self.locate(chosen, environment, bundled, system).is_ok()
    }

    /// Every place `locate` looks, in order: the chosen path alone when
    /// there is one, `RETROARCH` alone when it is set, otherwise the bundled
    /// candidates and then the system's.
    pub fn searched(&self, environment: Option<String>, bundled: &Vec<String>, system: &Vec<String>) -> (r: Vec<
        String,
    >)
        ensures
            strings(r@) == match self.chosen_spec() {
                Some(c) => seq![c],
                None => match opt_view(environment) {
                    Some(e) => seq![e],
                    None => strings(bundled@) + strings(system@),
                },
            },
    {
        let mut out: Vec<String> = Vec::new();
        match &self.chosen {
            Some(c) => {
                out.push(c.clone());
                assert(strings(out@) =~= seq![c@]);
                return out;
            },
            None => {},
        }
        match environment {
            Some(e) => {
                let ghost ev = e@;
                out.push(e);
                assert(strings(out@) =~= seq![ev]);
                return out;
            },
            None => {},
        }
        let mut i: usize = 0;
        while i < bundled.len()
            invariant
                i <= bundled@.len(),
                strings(out@) == strings(bundled@).take(i as int),
            decreases bundled@.len() - i,
        {
            push_owned(&mut out, bundled[i].as_str());
            i += 1;
            assert(strings(out@) =~= strings(bundled@).take(i as int));
        }
        let mut j: usize = 0;
        while j < system.len()
            invariant
                j <= system@.len(),
                strings(out@) == strings(bundled@) + strings(system@).take(j as int),
            decreases system@.len() - j,
        {
            push_owned(&mut out, system[j].as_str());
            j += 1;
            assert(strings(out@) =~= strings(bundled@) + strings(system@).take(j as int));
        }
        assert(strings(bundled@).take(i as int) =~= strings(bundled@));
        assert(strings(system@).take(j as int) =~= strings(system@));
        out
    }

    /// The directory of libretro cores that goes with a RetroArch: the first
    /// of its candidate directories that the look found holding a core.
    pub fn cores_for(&self, candidates: &Vec<String>, holds_cores: &Vec<bool>) -> (r: Option<String>)
        ensures
            opt_view(r) == first_present(strings(candidates@), holds_cores@),
    {
        first_found(candidates, holds_cores)
    }

    /// Whether a named core is installed: unknown without a RetroArch or
    /// without a cores directory to look in, otherwise whether its file is
    /// there.
    pub fn core_installed(&self, located: bool, cores: Option<&str>, present: bool) -> (r: Option<bool>)
        ensures
            r == if located && cores is Some {
                Some(present)
            } else {
                None::<bool>
            },
    {
        if !located {
            return None;
        }
        match cores {
            Some(_) => Some(present),
            None => None,
        }
    }

    /// The private config file of a game's session:
    /// `<config dir>/den-<id>.cfg`.
    pub fn config_path(&self, game_id: i64) -> (r: String)
        ensures
            r@ == push(self.config_dir_spec(), "den-"@ + signed_dec(game_id as int) + ".cfg"@),
    {
        let mut name: Vec<char> = Vec::new();
        push_str(&mut name, "den-");
        let d = signed_decimal(game_id);
        push_chars(&mut name, &d);
        push_str(&mut name, ".cfg");
        let n = string_from_chars(&name);
        join(self.config_dir.as_str(), n.as_str())
    }

    /// What a launch hands RetroArch, or why it does not happen: a core
    /// missing from a known cores directory is named before RetroArch can
    /// die of it. Otherwise the core (by full path when it is there), the
    /// private config, fullscreen, and the game.
    pub fn launch_args(
        &self,
        game: &Game,
        core: &str,
        cores: Option<&str>,
        core_present: bool,
        platform: Platform,
    ) -> (r: Result<Vec<String>, RunnerError>)
        ensures
            match cores {
                Some(d) => !core_present ==> (r matches Err(RunnerError::CoreMissing { core: c, dir: x }) && c@
                    == core@ && x@ == d@),
                None => true,
            },
            (cores is None || core_present) ==> (r matches Ok(a) && strings(a@) == seq![
                "-L"@,
                match cores {
                    Some(d) => if core_present {
                        push(d@, core_file_spec(core@, platform))
                    } else {
                        core_file_spec(core@, platform)
                    },
                    None => core_file_spec(core@, platform),
                },
                "--config"@,
                push(self.config_dir_spec(), "den-"@ + signed_dec(game.id as int) + ".cfg"@),
                "--fullscreen"@,
                game.path@,
            ]),
    {
        if let Some(d) = cores {
            if !core_present {
                return Err(RunnerError::CoreMissing { core: core.to_owned(), dir: d.to_owned() });
            }
        }
        let mut args: Vec<String> = Vec::new();
        args.push("-L".to_owned());
        args.push(core_argument(core, cores, core_present, platform));
        args.push("--config".to_owned());
        args.push(self.config_path(game.id));
        args.push("--fullscreen".to_owned());
        args.push(game.path.clone());
        assert(strings(args@) =~= seq![
            "-L"@,
            match cores {
                Some(d) => if core_present {
                    push(d@, core_file_spec(core@, platform))
                } else {
                    core_file_spec(core@, platform)
                },
                None => core_file_spec(core@, platform),
            },
            "--config"@,
            push(self.config_dir_spec(), "den-"@ + signed_dec(game.id as int) + ".cfg"@),
            "--fullscreen"@,
            game.path@,
        ]);
        Ok(args)
    }
}

/// Whether a look found a file this process could execute.
pub fn is_runnable(is_file: bool, executable: bool) -> (r: bool)
    ensures
        r == (is_file && executable),
{
    is_file && executable
}

/// RetroArch's own configuration file: the first of its candidate places
/// that the look found to be a file.
pub fn user_config(candidates: &Vec<String>, is_file: &Vec<bool>) -> (r: Option<String>)
    ensures
        opt_view(r) == first_present(strings(candidates@), is_file@),
{
    first_found(candidates, is_file)
}


/// A chosen path decides alone: whatever `RETROARCH` and the searches
/// would find, the answer is the chosen path or why it does not work.
pub proof fn lemma_chosen_decides_alone(
    chosen: Seq<char>,
    check: Option<Seq<char>>,
    why: Seq<char>,
    environment: Option<(Seq<char>, Option<Seq<char>>, Seq<char>)>,
    bundled: Seq<Option<Seq<char>>>,
    system: Seq<Option<Seq<char>>>,
)
    ensures
        locate_spec(Some(chosen), check, why, environment, bundled, system) == match check {
            Some(p) => Ok::<(Seq<char>, Source), (Source, Seq<char>, Seq<char>)>((p, Source::Chosen)),
            None => Err((Source::Chosen, chosen, why)),
        },
{
}

/// Without a chosen path, `RETROARCH` decides alone: a search is never a
/// quiet fallback for a broken override.
pub proof fn lemma_environment_decides_alone(
    check: Option<Seq<char>>,
    why: Seq<char>,
    raw: Seq<char>,
    env_check: Option<Seq<char>>,
    env_why: Seq<char>,
    bundled: Seq<Option<Seq<char>>>,
    system: Seq<Option<Seq<char>>>,
)
    ensures
        locate_spec(None, check, why, Some((raw, env_check, env_why)), bundled, system) == match env_check {
            Some(p) => Ok::<(Seq<char>, Source), (Source, Seq<char>, Seq<char>)>((p, Source::Environment)),
            None => Err((Source::Environment, raw, env_why)),
        },
{
}

/// A copy shipped with Den, or one it installed, beats one installed on
/// the machine: when any bundled candidate runs, the system is not used.
pub proof fn lemma_bundled_beats_system(
    check: Option<Seq<char>>,
    why: Seq<char>,
    bundled: Seq<Option<Seq<char>>>,
    system: Seq<Option<Seq<char>>>,
)
    requires
        first_some(bundled) is Some,
    ensures
        locate_spec(None, check, why, None, bundled, system) == Ok::<
            (Seq<char>, Source),
            (Source, Seq<char>, Seq<char>),
        >((first_some(bundled)->0, Source::Bundled)),
{
}

/// The first runnable candidate is a candidate that runs: nothing is
/// found when no candidate runs.
pub proof fn lemma_first_some_is_one_of_them(v: Seq<Option<Seq<char>>>)
    ensures
        first_some(v) is None <==> (forall|i: int| 0 <= i < v.len() ==> #[trigger] v[i] is None),
        first_some(v) is Some ==> exists|i: int| 0 <= i < v.len() && #[trigger] v[i] == first_some(v),
    decreases v.len(),
{
    if v.len() > 0 {
        lemma_first_some_is_one_of_them(v.drop_first());
        if v[0] is None {
            assert forall|i: int| 0 <= i < v.len() && (forall|j: int| 0 <= j < v.drop_first().len() ==> #[trigger] v.drop_first()[j] is None) implies #[trigger] v[i] is None by {
                if i > 0 {
                    assert(v[i] == v.drop_first()[i - 1]);
                }
            }
            if first_some(v) is Some {
                let j = choose|j: int| 0 <= j < v.drop_first().len() && #[trigger] v.drop_first()[j] == first_some(v);
                assert(v[j + 1] == v.drop_first()[j]);
            }
            if forall|i: int| 0 <= i < v.len() ==> #[trigger] v[i] is None {
                assert forall|j: int| 0 <= j < v.drop_first().len() implies #[trigger] v.drop_first()[j] is None by {
                    assert(v.drop_first()[j] == v[j + 1]);
                }
            }
        } else {
            assert(v[0] == first_some(v));
        }
    }
}

} // verus!
