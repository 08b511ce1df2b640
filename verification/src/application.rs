//! Launch-capable applications and the launch decisions.
//!
//! An `Application` wraps one desktop entry that is not hidden; a hidden
//! entry (`NoDisplay=true`) cannot become an `Application` at all, so a
//! respecting caller can never offer one for launch. Launching itself is
//! asynchronous and lives with the caller: it asks the host environment
//! for a startup token and the connection environment, and spawns the
//! command detached only when both arrived. The functions here make
//! every decision on plain values: which entries may be shown, whether a
//! launch is possible, how the command is cleaned, and what exactly is
//! spawned with which variables.

use crate::icon::{select_icon, select_icon_spec, Icon};
use crate::xdg::{DesktopFile, DesktopFileView};
use vstd::prelude::*;

verus! {

/// Why a launch is refused before anything is scheduled.
#[derive(Debug, PartialEq, Eq, Clone, Copy, Structural)]
pub enum LaunchError {
    /// The entry has no command to run.
    DoesNotExist,
}

/// A desktop entry that may be presented and launched. No value of this
/// type wraps a hidden entry.
#[derive(Debug)]
pub struct Application {
    desktop_file: DesktopFile,
}

impl Clone for Application {
    fn clone(&self) -> (r: Self)
        ensures
            r@ == self@,
    {
        proof {
            use_type_invariant(self);
        }
        Application { desktop_file: self.desktop_file.clone() }
    }
}

impl View for Application {
    type V = DesktopFileView;

    closed spec fn view(&self) -> DesktopFileView {
        self.desktop_file@
    }
}

impl Application {
    #[verifier::type_invariant]
    spec fn type_inv(self) -> bool {
        !self.desktop_file@.no_display
    }

    /// Wraps an entry for launching; a hidden entry is refused.
    pub fn create(desktop_file: DesktopFile) -> (r: Result<Application, LaunchError>)
        ensures
            desktop_file@.no_display ==> r == Result::<Application, LaunchError>::Err(
                LaunchError::DoesNotExist,
            ),
            !desktop_file@.no_display ==> match r {
                Result::Ok(a) => a@ == desktop_file@,
                Result::Err(_) => false,
            },
    {
        if desktop_file.no_display {
            return Result::Err(LaunchError::DoesNotExist);
        }
        Result::Ok(Application { desktop_file })
    }

    /// The entry's display name.
    pub fn name(&self) -> (r: &Option<String>)
        ensures
            r.deep_view() == self@.name,
    {
        &self.desktop_file.name
    }

    /// The entry's categories.
    pub fn categories(&self) -> (r: &Vec<String>)
        ensures
            r.deep_view() == self@.categories,
    {
        &self.desktop_file.categories
    }

    /// Picks this application's icon from the discovered candidates.
    pub fn icon(&self, raw_icons: &Vec<Icon>, prefer_3d: bool) -> (r: Option<Icon>)
        ensures
            match r {
                Option::Some(ic) => select_icon_spec(raw_icons.deep_view(), prefer_3d)
                    == Option::Some(ic@),
                Option::None => select_icon_spec(raw_icons.deep_view(), prefer_3d) is None,
            },
    {
        select_icon(raw_icons, prefer_3d)
    }

    /// The command to hand to the shell, with field codes stripped.
    /// Refused exactly when the entry has no command; and no hidden
    /// entry can reach this point at all, which the last clause records.
    pub fn launch_command(&self) -> (r: Result<String, LaunchError>)
        ensures
            self@.command is None ==> r == Result::<String, LaunchError>::Err(
                LaunchError::DoesNotExist,
            ),
            match self@.command {
                Option::Some(c) => match r {
                    Result::Ok(s) => s@ == strip_codes(c),
                    Result::Err(_) => false,
                },
                Option::None => true,
            },
            !self@.no_display,
    {
        proof {
            use_type_invariant(self);
        }
        match &self.desktop_file.command {
            Option::None => Result::Err(LaunchError::DoesNotExist),
            Option::Some(c) => Result::Ok(strip_field_codes(c.as_str())),
        }
    }
}

/// The entries that may be presented or launched: exactly those not
/// marked `NoDisplay`, in discovery order.
pub open spec fn visible_entries_spec(entries: Seq<DesktopFileView>) -> Seq<DesktopFileView>
    decreases entries.len(),
{
    if entries.len() == 0 {
        Seq::empty()
    } else {
        (if !entries[0].no_display {
            seq![entries[0]]
        } else {
            Seq::empty()
        }) + visible_entries_spec(entries.drop_first())
    }
}

/// The visible set never holds a hidden entry, whatever was discovered.
pub proof fn lemma_visible_entries_hidden_free(entries: Seq<DesktopFileView>)
    ensures
        forall|i: int|
            0 <= i < visible_entries_spec(entries).len() ==> !(#[trigger] visible_entries_spec(
                entries,
            )[i]).no_display,
    decreases entries.len(),
{
    if entries.len() > 0 {
        lemma_visible_entries_hidden_free(entries.drop_first());
        let head: Seq<DesktopFileView> = if !entries[0].no_display {
            seq![entries[0]]
        } else {
            Seq::empty()
        };
        let tail = visible_entries_spec(entries.drop_first());
        assert forall|i: int|
            0 <= i < visible_entries_spec(entries).len() implies !(
        #[trigger] visible_entries_spec(entries)[i]).no_display by {
            if i < head.len() {
                assert(visible_entries_spec(entries)[i] == entries[0]);
            } else {
                assert(visible_entries_spec(entries)[i] == tail[i - head.len()]);
            }
        }
    }
}

/// Filters out hidden entries. Consumers present and launch only what
/// this returns, so no `NoDisplay` entry reaches either.
pub fn visible_entries(entries: &Vec<DesktopFile>) -> (r: Vec<DesktopFile>)
    ensures
        r.deep_view() == visible_entries_spec(entries.deep_view()),
        forall|i: int| 0 <= i < r@.len() ==> !(#[trigger] r@[i])@.no_display,
{
    let mut r: Vec<DesktopFile> = Vec::new();
    let n = entries.len();
    let mut i: usize = 0;
    proof {
        assert(entries.deep_view().skip(0) =~= entries.deep_view());
        assert(r.deep_view() =~= Seq::<DesktopFileView>::empty());
        assert(Seq::<DesktopFileView>::empty() + visible_entries_spec(entries.deep_view())
            =~= visible_entries_spec(entries.deep_view()));
    }
    while i < n
        invariant
            n == entries.len(),
            i <= n,
            r.deep_view() + visible_entries_spec(entries.deep_view().skip(i as int))
                == visible_entries_spec(entries.deep_view()),
            forall|t: int| 0 <= t < r@.len() ==> !(#[trigger] r@[t])@.no_display,
        decreases n - i,
    {
        let ghost suffix = entries.deep_view().skip(i as int);
        let ghost dv0 = r.deep_view();
        proof {
            assert(suffix[0] == entries.deep_view()[i as int]);
            assert(suffix.drop_first() =~= entries.deep_view().skip(i + 1));
        }
        if !entries[i].no_display {
            r.push(entries[i].clone());
            proof {
                assert(r.deep_view() =~= dv0.push(suffix[0]));
                assert(dv0.push(suffix[0]) =~= dv0 + seq![suffix[0]]);
                assert(dv0 + visible_entries_spec(suffix) =~= (dv0 + seq![suffix[0]])
                    + visible_entries_spec(suffix.drop_first()));
            }
        } else {
            proof {
                assert(visible_entries_spec(suffix) =~= Seq::<DesktopFileView>::empty()
                    + visible_entries_spec(suffix.drop_first()));
                assert(dv0 + visible_entries_spec(suffix) =~= dv0 + visible_entries_spec(
                    suffix.drop_first(),
                ));
            }
        }
        i = i + 1;
    }
    proof {
        assert(entries.deep_view().skip(n as int) =~= Seq::<DesktopFileView>::empty());
        assert(r.deep_view() + Seq::<DesktopFileView>::empty() =~= r.deep_view());
    }
    r
}

/// The characters that may follow `%` as a field code in an Exec line.
pub open spec fn is_field_code(c: char) -> bool {
    c == 'f' || c == 'F' || c == 'u' || c == 'U' || c == 'd' || c == 'D' || c == 'n' || c == 'N'
        || c == 'i' || c == 'c' || c == 'k' || c == 'v' || c == 'm'
}

/// The Exec string with every `%` field-code pair removed, scanning left
/// to right; every other character stays, spacing included.
pub open spec fn strip_codes(s: Seq<char>) -> Seq<char>
    decreases s.len(),
{
    if s.len() == 0 {
        Seq::empty()
    } else if s.len() >= 2 && s[0] == '%' && is_field_code(s[1]) {
        strip_codes(s.skip(2))
    } else {
        seq![s[0]] + strip_codes(s.skip(1))
    }
}

fn is_field_code_ex(c: char) -> (r: bool)
    ensures
        r == is_field_code(c),
{
    c == 'f' || c == 'F' || c == 'u' || c == 'U' || c == 'd' || c == 'D' || c == 'n' || c == 'N'
        || c == 'i' || c == 'c' || c == 'k' || c == 'v' || c == 'm'
}

/// Removes the field codes a launcher does not substitute from an Exec
/// line.
pub fn strip_field_codes(s: &str) -> (r: String)
    ensures
        r@ == strip_codes(s@),
{
    let n = s.unicode_len();
    let mut r = String::new();
    let mut i: usize = 0;
    proof {
        assert(s@.skip(0) =~= s@);
        assert(r@ + strip_codes(s@) =~= strip_codes(s@));
    }
    while i < n
        invariant
            s@.len() == n,
            i <= n,
            r@ + strip_codes(s@.skip(i as int)) == strip_codes(s@),
        decreases n - i,
    {
        let ghost suffix = s@.skip(i as int);
        let ghost r0 = r@;
        proof {
            assert(suffix[0] == s@[i as int]);
        }
        let c = s.get_char(i);
        if c == '%' && i + 1 < n && is_field_code_ex(s.get_char(i + 1)) {
            proof {
                assert(suffix[1] == s@[i + 1]);
                assert(suffix.skip(2) =~= s@.skip(i + 2));
            }
            i = i + 2;
        } else {
            r.push(c);
            proof {
                assert(suffix.skip(1) =~= s@.skip(i + 1));
                assert(r@ =~= r0 + seq![c]);
                assert(r0 + strip_codes(suffix) =~= (r0 + seq![c]) + strip_codes(suffix.skip(1)));
            }
            i = i + 1;
        }
    }
    proof {
        assert(s@.skip(n as int) =~= Seq::<char>::empty());
        assert(r@ + Seq::<char>::empty() =~= r@);
    }
    r
}

/// Everything a runner needs to spawn the process: the variables to set
/// (the connection environment, then the startup token) and the command
/// line for `sh -c`. Standard streams are redirected to null and the
/// child is detached into its own session; the spawned process is never
/// watched afterwards.
pub struct SpawnSpec {
    pub env: Vec<(String, String)>,
    pub shell_command: String,
}

/// The decision after the handshake: a process is spawned exactly when
/// both the startup token and the connection environment arrived; if
/// either request failed, nothing is spawned and the gesture ends with
/// no visible effect.
pub fn spawn_decision(
    command: &String,
    token: &Option<String>,
    connection_env: &Option<Vec<(String, String)>>,
) -> (r: Option<SpawnSpec>)
    ensures
        (r is Some) <==> (token is Some && connection_env is Some),
        match (token, connection_env) {
            (Option::Some(tok), Option::Some(env)) => match r {
                Option::Some(sp) => {
                    &&& sp.shell_command@ == command@
                    &&& sp.env@.len() == env@.len() + 1
                    &&& (forall|i: int| 0 <= i < env@.len() ==> sp.env@[i] == env@[i])
                    &&& sp.env@[env@.len() as int].0@ == "STARDUST_STARTUP_TOKEN"@
                    &&& sp.env@[env@.len() as int].1 == *tok
                },
                Option::None => false,
            },
            _ => r is None,
        },
{
    let tok = match token {
        Option::Some(t) => t,
        Option::None => {
            return Option::None;
        },
    };
    let env = match connection_env {
        Option::Some(e) => e,
        Option::None => {
            return Option::None;
        },
    };
    let mut vars: Vec<(String, String)> = Vec::new();
    let n = env.len();
    let mut i: usize = 0;
    while i < n
        invariant
            n == env.len(),
            i <= n,
            vars@ =~= env@.take(i as int),
        decreases n - i,
    {
        let (k, v) = &env[i];
        vars.push((k.clone(), v.clone()));
        proof {
            assert(vars@ =~= env@.take((i + 1) as int));
        }
        i = i + 1;
    }
    proof {
        assert(env@.take(n as int) =~= env@);
    }
    vars.push((String::from_str("STARDUST_STARTUP_TOKEN"), tok.clone()));
    Option::Some(SpawnSpec { env: vars, shell_command: command.clone() })
}

} // verus!
