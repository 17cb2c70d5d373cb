//! Decision logic for cloud authentication and sign-out.
//!
//! Signing in alternates network requests with decisions: check the
//! current session, create one, open the browser, poll until a key
//! arrives or time runs out.  The decisions live here as a state machine;
//! the surrounding binary performs each requested action and hands the
//! outcome back.  Sign-out walks credential files and project directories;
//! the per-profile and final decisions live here too.

use vstd::prelude::*;

use crate::branding::BRANDING_CLOUD;
use crate::text::starts_with_str;

verus! {

/// Where the sign-in conversation stands.
pub enum LoginState {
    /// Waiting for the current-user probe.
    CheckingUser,
    /// Waiting for the fresh session record.
    CreatingSession,
    /// Waiting for a poll of the session; the field is the session id.
    Polling(String),
    /// Waiting for the freshly minted secret key to be stored.
    StoringKey(String),
    /// Waiting for the user record fetched with the stored key.
    ConfirmingUser,
    /// Signed in; the field is the final message.
    Done(String),
    /// Signing in failed; the field is the error message.
    Failed(String),
}

/// What the surrounding binary must do next.
pub enum LoginAction {
    /// Fetch the current user record.
    GetUser,
    /// Create a sign-in session.
    CreateSession,
    /// Open the sign-in link, then poll the session; the field is the
    /// relative link to open.
    OpenAndPoll(String),
    /// Wait briefly, then poll the session again.
    PollAgain,
    /// Exchange the short-lived key for a durable one and store it; the
    /// field is the short-lived key.
    StoreKey(String),
    /// Report the message and stop.
    Finish(String),
    /// Report the failure and stop.
    Abort(String),
}

/// What the last requested action produced.
pub enum LoginEvent {
    /// The user record arrived; the field is the user name.
    UserOk(String),
    /// The probe was rejected for want of credentials.
    Unauthorized,
    /// The session record arrived: its id and the link to open.
    SessionCreated(String, String),
    /// A poll arrived with the short-lived key.
    PollToken(String),
    /// A poll arrived without a key yet.
    PollPending,
    /// A request failed; the field describes it.
    RequestFailed(String),
    /// The durable key was stored.
    KeyStored,
    /// The sign-in window elapsed.
    TimedOut,
}

/// The message reported when the probe finds a session already open.
pub open spec fn already_message(name: Seq<char>) -> Seq<char> {
    "Already logged in as "@ + name + "."@
}

/// The message reported after a successful sign-in.
pub open spec fn success_message(name: Seq<char>) -> Seq<char> {
    "Successfully logged in to "@ + BRANDING_CLOUD@ + " as "@ + name + "."@
}

/// The message reported when the sign-in window elapses.
pub open spec fn timeout_message() -> Seq<char> {
    "Authentication expected to complete in 600s."@
}

/// Start the sign-in conversation: probe for an existing session first.
pub fn login() -> (r: (LoginState, LoginAction))
    ensures
        r.0 is CheckingUser,
        r.1 is GetUser,
{
    (LoginState::CheckingUser, LoginAction::GetUser)
}

/// Advance the sign-in conversation by one observed outcome.
///
/// An existing session ends the conversation at once; an unauthorized
/// probe starts a fresh session; polls repeat until a key, a failure
/// (reported, then retried) or the timeout; the key is exchanged and
/// stored, and the stored session is confirmed with a final probe.
pub fn login_step(state: LoginState, event: LoginEvent) -> (r: (LoginState, LoginAction))
    ensures
        state is CheckingUser ==> match event {
            LoginEvent::UserOk(name) => r.0 matches LoginState::Done(m) && m@ == already_message(
                name@,
            ) && (r.1 matches LoginAction::Finish(m2) && m2@ == already_message(name@)),
            LoginEvent::Unauthorized => r.0 is CreatingSession && r.1 is CreateSession,
            LoginEvent::RequestFailed(e) => r.0 matches LoginState::Failed(m) && m@ == e@ && (
            r.1 matches LoginAction::Abort(m2) && m2@ == e@),
            _ => r.0 is Failed,
        },
        state is CreatingSession ==> match event {
            LoginEvent::SessionCreated(id, link) => (r.0 matches LoginState::Polling(i) && i@
                == id@) && (r.1 matches LoginAction::OpenAndPoll(l) && l@ == link@),
            LoginEvent::RequestFailed(e) => r.0 matches LoginState::Failed(m) && m@ == e@,
            _ => r.0 is Failed,
        },
        state matches LoginState::Polling(id) ==> match event {
            LoginEvent::PollToken(secret) => (r.0 matches LoginState::StoringKey(s) && s@
                == secret@) && (r.1 matches LoginAction::StoreKey(s2) && s2@ == secret@),
            LoginEvent::PollPending => (r.0 matches LoginState::Polling(i) && i@ == id@) && r.1
                is PollAgain,
            LoginEvent::RequestFailed(_) => (r.0 matches LoginState::Polling(i) && i@ == id@)
                && r.1 is PollAgain,
            LoginEvent::TimedOut => r.0 matches LoginState::Failed(m) && m@ == timeout_message()
                && (r.1 matches LoginAction::Abort(m2) && m2@ == timeout_message()),
            _ => r.0 is Failed,
        },
        state is StoringKey ==> match event {
            LoginEvent::KeyStored => r.0 is ConfirmingUser && r.1 is GetUser,
            LoginEvent::RequestFailed(e) => r.0 matches LoginState::Failed(m) && m@ == e@,
            _ => r.0 is Failed,
        },
        state is ConfirmingUser ==> match event {
            LoginEvent::UserOk(name) => r.0 matches LoginState::Done(m) && m@ == success_message(
                name@,
            ) && (r.1 matches LoginAction::Finish(m2) && m2@ == success_message(name@)),
            LoginEvent::RequestFailed(e) => r.0 matches LoginState::Failed(m) && m@ == e@,
            _ => r.0 is Failed,
        },
        state is Done ==> r.0 is Done,
        state is Failed ==> r.0 is Failed,
{
    match state {
        LoginState::CheckingUser => match event {
            LoginEvent::UserOk(name) => {
                let m = "Already logged in as ".to_owned().concat(name.as_str()).concat(".");
                (LoginState::Done(m.clone()), LoginAction::Finish(m))
            },
            LoginEvent::Unauthorized => (LoginState::CreatingSession, LoginAction::CreateSession),
            LoginEvent::RequestFailed(e) => (
                LoginState::Failed(e.clone()),
                LoginAction::Abort(e),
            ),
            _ => {
                let m = "unexpected response".to_owned();
                (LoginState::Failed(m.clone()), LoginAction::Abort(m))
            },
        },
        LoginState::CreatingSession => match event {
            LoginEvent::SessionCreated(id, link) => (
                LoginState::Polling(id),
                LoginAction::OpenAndPoll(link),
            ),
            LoginEvent::RequestFailed(e) => (
                LoginState::Failed(e.clone()),
                LoginAction::Abort(e),
            ),
            _ => {
                let m = "unexpected response".to_owned();
                (LoginState::Failed(m.clone()), LoginAction::Abort(m))
            },
        },
        LoginState::Polling(id) => match event {
            LoginEvent::PollToken(secret) => (
                LoginState::StoringKey(secret.clone()),
                LoginAction::StoreKey(secret),
            ),
            LoginEvent::PollPending => (LoginState::Polling(id), LoginAction::PollAgain),
            LoginEvent::RequestFailed(_) => (LoginState::Polling(id), LoginAction::PollAgain),
            LoginEvent::TimedOut => {
                let m = "Authentication expected to complete in 600s.".to_owned();
                (LoginState::Failed(m.clone()), LoginAction::Abort(m))
            },
            _ => {
                let m = "unexpected response".to_owned();
                (LoginState::Failed(m.clone()), LoginAction::Abort(m))
            },
        },
        LoginState::StoringKey(_) => match event {
            LoginEvent::KeyStored => (LoginState::ConfirmingUser, LoginAction::GetUser),
            LoginEvent::RequestFailed(e) => (
                LoginState::Failed(e.clone()),
                LoginAction::Abort(e),
            ),
            _ => {
                let m = "unexpected response".to_owned();
                (LoginState::Failed(m.clone()), LoginAction::Abort(m))
            },
        },
        LoginState::ConfirmingUser => match event {
            LoginEvent::UserOk(name) => {
                let m = "Successfully logged in to ".to_owned().concat(BRANDING_CLOUD).concat(
                    " as ",
                ).concat(name.as_str()).concat(".");
                (LoginState::Done(m.clone()), LoginAction::Finish(m))
            },
            LoginEvent::RequestFailed(e) => (
                LoginState::Failed(e.clone()),
                LoginAction::Abort(e),
            ),
            _ => {
                let m = "unexpected response".to_owned();
                (LoginState::Failed(m.clone()), LoginAction::Abort(m))
            },
        },
        LoginState::Done(m) => {
            let a = LoginAction::Finish(m.clone());
            (LoginState::Done(m), a)
        },
        LoginState::Failed(m) => {
            let a = LoginAction::Abort(m.clone());
            (LoginState::Failed(m), a)
        },
    }
}

/// A profile directory as scanned from disk: each project stash entry
/// resolved to its project path, or nothing where the stash was broken.
pub struct ProfileScan {
    pub profile: String,
    pub projects: Vec<Option<String>>,
}

/// A profile that still has readable projects.
pub struct ProfileProjects {
    pub profile: String,
    pub projects: Vec<String>,
}

/// The readable project paths of one scan.
pub open spec fn readable(projects: Seq<Option<String>>) -> Seq<Seq<char>>
    decreases projects.len(),
{
    if projects.len() == 0 {
        Seq::empty()
    } else {
        (match projects[0] {
            Some(p) => seq![p@],
            None => Seq::<Seq<char>>::empty(),
        }) + readable(projects.drop_first())
    }
}

/// The view of a kept profile list.
pub open spec fn kept_view(v: Seq<ProfileProjects>) -> Seq<(Seq<char>, Seq<Seq<char>>)> {
    Seq::new(v.len(), |i: int| (v[i].profile@, Seq::new(v[i].projects@.len(), |j: int| v[i].projects@[j]@)))
}

/// The profiles a scan keeps: those with at least one readable project,
/// in order, each carrying its readable projects.
pub open spec fn kept_spec(entries: Seq<ProfileScan>) -> Seq<(Seq<char>, Seq<Seq<char>>)>
    decreases entries.len(),
{
    if entries.len() == 0 {
        Seq::empty()
    } else {
        let ps = readable(entries[0].projects@);
        (if ps.len() == 0 {
            Seq::<(Seq<char>, Seq<Seq<char>>)>::empty()
        } else {
            seq![(entries[0].profile@, ps)]
        }) + kept_spec(entries.drop_first())
    }
}

/// Keep the profiles that still have readable projects, dropping broken
/// stash entries and empty profiles.
pub fn find_project_dirs(entries: Vec<ProfileScan>) -> (r: Vec<ProfileProjects>)
    ensures
        kept_view(r@) == kept_spec(entries@),
{
    let mut out: Vec<ProfileProjects> = Vec::new();
    let n = entries.len();
    let mut i: usize = 0;
    proof {
        assert(entries@.skip(0) =~= entries@);
        assert(kept_view(out@) + kept_spec(entries@.skip(0)) =~~= kept_spec(entries@));
    }
    while i < n
        invariant
            i <= n,
            n == entries@.len(),
            kept_view(out@) + kept_spec(entries@.skip(i as int)) == kept_spec(entries@),
        decreases n - i,
    {
        proof {
            assert(entries@.skip(i as int)[0] == entries@[i as int]);
            assert(entries@.skip(i as int).drop_first() =~= entries@.skip(i as int + 1));
        }
        let entry = &entries[i];
        let mut ps: Vec<String> = Vec::new();
        let m = entry.projects.len();
        let mut j: usize = 0;
        proof {
            assert(entry.projects@.skip(0) =~= entry.projects@);
            assert(Seq::new(ps@.len(), |q: int| ps@[q]@) + readable(entry.projects@.skip(0))
                =~~= readable(entry.projects@));
        }
        while j < m
            invariant
                j <= m,
                m == entries@[i as int].projects@.len(),
                i < n,
                n == entries@.len(),
                Seq::new(ps@.len(), |q: int| ps@[q]@) + readable(
                    entries@[i as int].projects@.skip(j as int),
                ) == readable(entries@[i as int].projects@),
            decreases m - j,
        {
            proof {
                assert(entries@[i as int].projects@.skip(j as int)[0]
                    == entries@[i as int].projects@[j as int]);
                assert(entries@[i as int].projects@.skip(j as int).drop_first()
                    =~= entries@[i as int].projects@.skip(j as int + 1));
            }
            let ghost ps0 = ps@;
            match &entries[i].projects[j] {
                Option::Some(p) => {
                    ps.push(p.clone());
                    proof {
                        assert(Seq::new(ps@.len(), |q: int| ps@[q]@) =~~= Seq::new(
                            ps0.len(),
                            |q: int| ps0[q]@,
                        ).push(entries@[i as int].projects@[j as int]->0@));
                        assert(Seq::new(ps@.len(), |q: int| ps@[q]@) + readable(
                            entries@[i as int].projects@.skip(j as int + 1),
                        ) =~~= readable(entries@[i as int].projects@));
                    }
                },
                Option::None => {
                    proof {
                        assert(readable(entries@[i as int].projects@.skip(j as int)) == readable(
                            entries@[i as int].projects@.skip(j as int + 1),
                        ));
                    }
                },
            }
            j = j + 1;
        }
        proof {
            assert(entries@[i as int].projects@.skip(m as int)
                =~= Seq::<Option<String>>::empty());
            assert(readable(Seq::<Option<String>>::empty()) == Seq::<Seq<char>>::empty());
            assert(Seq::new(ps@.len(), |q: int| ps@[q]@) + Seq::<Seq<char>>::empty()
                =~~= Seq::new(ps@.len(), |q: int| ps@[q]@));
        }
        let ghost out0 = out@;
        if ps.len() > 0 {
            let kept = ProfileProjects { profile: entries[i].profile.clone(), projects: ps };
            out.push(kept);
            proof {
                assert(kept_view(out@) =~~= kept_view(out0).push(
                    (entries@[i as int].profile@, readable(entries@[i as int].projects@)),
                ));
                assert(kept_view(out@) + kept_spec(entries@.skip(i as int + 1)) =~~= kept_spec(
                    entries@,
                ));
            }
        } else {
            proof {
                assert(readable(entries@[i as int].projects@).len() == 0);
                assert(kept_spec(entries@.skip(i as int)) == kept_spec(
                    entries@.skip(i as int + 1),
                ));
            }
        }
        i = i + 1;
    }
    proof {
        assert(entries@.skip(n as int) =~= Seq::<ProfileScan>::empty());
        assert(kept_spec(Seq::<ProfileScan>::empty()) == Seq::<(Seq<char>, Seq<Seq<char>>)
        >::empty());
        assert(kept_view(out@) + Seq::<(Seq<char>, Seq<Seq<char>>)>::empty() =~~= kept_view(
            out@,
        ));
    }
    out
}

/// Whether a credentials-directory entry is skipped during sign-out: a
/// hidden file, or one whose stem cannot be read.
pub fn should_skip_entry(stem: Option<&String>) -> (r: bool)
    ensures
        r == (match stem {
            Some(s) => s@.len() > 0 && s@[0] == '.' || s@.len() == 0,
            None => true,
        }),
{
    match stem {
        Option::Some(s) => {
            if starts_with_str(s.as_str(), ".") {
                proof {
                    reveal_strlit(".");
                    assert("."@ =~= seq!['.']);
                    assert(s@.take(1)[0] == s@[0]);
                }
                true
            } else {
                proof {
                    reveal_strlit(".");
                    if s@.len() > 0 && s@[0] == '.' {
                        assert(s@.take(1) =~= "."@);
                    }
                }
                s.as_str().unicode_len() == 0
            }
        },
        Option::None => true,
    }
}

/// What to do with one profile during sign-out.
#[derive(Clone, Copy, PartialEq, Eq, Structural, Debug)]
pub enum ProfileAction {
    /// Remove the credentials.
    Remove,
    /// Remove the credentials and record the collected warning.
    RemoveWithWarning,
    /// Keep the credentials and record the collected warning.
    SkipWithWarning,
    /// Keep the credentials.
    Skip,
}

/// Decide one profile during sign-out: profiles still used by projects are
/// kept unless forced or confirmed; without a prompt the warning is
/// collected either way.
pub fn logout_profile_action(
    has_projects: bool,
    non_interactive: bool,
    force: bool,
    confirmed: bool,
) -> (r: ProfileAction)
    ensures
        !has_projects ==> r == ProfileAction::Remove,
        has_projects && non_interactive && force ==> r == ProfileAction::RemoveWithWarning,
        has_projects && non_interactive && !force ==> r == ProfileAction::SkipWithWarning,
        has_projects && !non_interactive && confirmed ==> r == ProfileAction::Remove,
        has_projects && !non_interactive && !confirmed ==> r == ProfileAction::Skip,
{
    if !has_projects {
        ProfileAction::Remove
    } else if non_interactive {
        if force {
            ProfileAction::RemoveWithWarning
        } else {
            ProfileAction::SkipWithWarning
        }
    } else if confirmed {
        ProfileAction::Remove
    } else {
        ProfileAction::Skip
    }
}

/// How sign-out ends.
#[derive(Clone, Copy, PartialEq, Eq, Structural, Debug)]
pub enum LogoutOutcome {
    /// Every profile was handled.
    Clean,
    /// Some profiles were removed, some skipped.
    PartialSuccess,
    /// Nothing could be removed without force.
    NeedsForce,
}

/// The final verdict of a sign-out: clean when nothing was skipped,
/// partial when something was removed anyway, needs-force otherwise.
pub fn logout_outcome(skipped: bool, removed: bool) -> (r: LogoutOutcome)
    ensures
        !skipped ==> r == LogoutOutcome::Clean,
        skipped && removed ==> r == LogoutOutcome::PartialSuccess,
        skipped && !removed ==> r == LogoutOutcome::NeedsForce,
{
    if !skipped {
        LogoutOutcome::Clean
    } else if removed {
        LogoutOutcome::PartialSuccess
    } else {
        LogoutOutcome::NeedsForce
    }
}

/// The separator between listed project paths in a warning.
pub open spec fn project_sep() -> Seq<char> {
    seq!['\n', ' ', ' ', ' ', ' ']
}

/// Project paths joined for display.
pub open spec fn joined_projects(ps: Seq<Seq<char>>) -> Seq<char>
    decreases ps.len(),
{
    if ps.len() == 0 {
        Seq::empty()
    } else if ps.len() == 1 {
        ps[0]
    } else {
        ps[0] + project_sep() + joined_projects(ps.drop_first())
    }
}

/// One character of a debug-quoted name: quotes and backslashes escape.
pub open spec fn debug_escaped_char(c: char) -> Seq<char> {
    if c == '"' {
        seq!['\\', '"']
    } else if c == '\\' {
        seq!['\\', '\\']
    } else {
        seq![c]
    }
}

/// The body of a debug-quoted name.
pub open spec fn debug_escaped(s: Seq<char>) -> Seq<char>
    decreases s.len(),
{
    if s.len() == 0 {
        Seq::empty()
    } else {
        debug_escaped_char(s[0]) + debug_escaped(s.drop_first())
    }
}

/// A name rendered the way a debug formatter shows it: quoted, with
/// embedded quotes and backslashes escaped.
pub open spec fn debug_quoted(s: Seq<char>) -> Seq<char> {
    seq!['"'] + debug_escaped(s) + seq!['"']
}

/// The warning shown for a profile still used by projects.
pub open spec fn project_warning(profile: Seq<char>, ps: Seq<Seq<char>>) -> Seq<char> {
    BRANDING_CLOUD@ + " profile "@ + debug_quoted(profile)
        + " is still used by the following projects:\n    "@ + joined_projects(ps)
}

/// Build the warning for a profile still used by projects.
pub fn make_project_warning(profile: &str, projects: &Vec<String>) -> (r: String)
    ensures
        r@ == project_warning(profile@, Seq::new(projects@.len(), |j: int| projects@[j]@)),
{
    let ghost pview = Seq::new(projects@.len(), |j: int| projects@[j]@);
    let cs = crate::print::style::str_chars(profile);
    let mut q: Vec<char> = Vec::new();
    q.push('"');
    let mut qi: usize = 0;
    while qi < cs.len()
        invariant
            qi <= cs@.len(),
            cs@ == profile@,
            q@ == seq!['"'] + debug_escaped(profile@.take(qi as int)),
        decreases cs@.len() - qi,
    {
        let c = cs[qi];
        if c == '"' {
            q.push('\\');
            q.push('"');
        } else if c == '\\' {
            q.push('\\');
            q.push('\\');
        } else {
            q.push(c);
        }
        proof {
            lemma_debug_escaped_snoc(profile@, qi as int);
            assert(q@ =~= seq!['"'] + debug_escaped(profile@.take(qi as int + 1)));
        }
        qi = qi + 1;
    }
    q.push('"');
    proof {
        assert(profile@.take(profile@.len() as int) =~= profile@);
        assert(q@ =~= debug_quoted(profile@));
    }
    let quoted = crate::text::chars_to_string(&q);
    let mut r = BRANDING_CLOUD.to_owned().concat(" profile ").concat(quoted.as_str()).concat(
        " is still used by the following projects:\n    ",
    );
    let n = projects.len();
    let mut i: usize = 0;
    let ghost head = r@;
    while i < n
        invariant
            i <= n,
            n == projects@.len(),
            pview == Seq::new(projects@.len(), |j: int| projects@[j]@),
            i == 0 ==> r@ == head,
            i > 0 ==> r@ == head + joined_projects(pview.take(i as int)),
            head == BRANDING_CLOUD@ + " profile "@ + debug_quoted(profile@)
                + " is still used by the following projects:\n    "@,
        decreases n - i,
    {
        if i > 0 {
            r = r.concat("\n    ");
            proof {
                reveal_strlit("\n    ");
                assert("\n    "@ =~= project_sep());
            }
        }
        r = r.concat(projects[i].as_str());
        proof {
            lemma_joined_snoc(pview, i as int);
            assert(pview[i as int] == projects@[i as int]@);
            if i > 0 {
                assert(r@ =~= head + joined_projects(pview.take(i as int + 1)));
            } else {
                assert(pview.take(1)[0] == pview[0]);
                assert(joined_projects(pview.take(1)) == pview[0]);
                assert(r@ =~= head + joined_projects(pview.take(1)));
            }
        }
        i = i + 1;
    }
    proof {
        assert(pview.take(n as int) =~= pview);
        if n == 0 {
            assert(joined_projects(pview) == Seq::<char>::empty());
            assert(head + Seq::<char>::empty() =~= head);
        }
    }
    r
}

/// Escaping one more character extends the escaped prefix.
proof fn lemma_debug_escaped_snoc(s: Seq<char>, i: int)
    requires
        0 <= i < s.len(),
    ensures
        debug_escaped(s.take(i + 1)) == debug_escaped(s.take(i)) + debug_escaped_char(s[i]),
    decreases i,
{
    if i == 0 {
        assert(s.take(1)[0] == s[0]);
        assert(s.take(1).drop_first() =~= Seq::<char>::empty());
        assert(debug_escaped(s.take(1).drop_first()) == Seq::<char>::empty());
        assert(debug_escaped(s.take(0)) == Seq::<char>::empty());
        assert(debug_escaped(s.take(1)) == debug_escaped_char(s[0]) + Seq::<char>::empty());
        assert(Seq::<char>::empty() + debug_escaped_char(s[0]) =~= debug_escaped_char(s[0])
            + Seq::<char>::empty());
    } else {
        lemma_debug_escaped_snoc(s.drop_first(), i - 1);
        assert(s.take(i + 1)[0] == s[0]);
        assert(s.take(i + 1).drop_first() =~= s.drop_first().take(i));
        assert(s.take(i).drop_first() =~= s.drop_first().take(i - 1));
        assert(s.drop_first()[i - 1] == s[i]);
        assert(debug_escaped(s.take(i + 1)) == debug_escaped_char(s[0]) + debug_escaped(
            s.drop_first().take(i),
        ));
        assert(debug_escaped(s.take(i)) == debug_escaped_char(s[0]) + debug_escaped(
            s.drop_first().take(i - 1),
        ));
        assert(debug_escaped_char(s[0]) + (debug_escaped(s.drop_first().take(i - 1))
            + debug_escaped_char(s[i])) =~= (debug_escaped_char(s[0]) + debug_escaped(
            s.drop_first().take(i - 1),
        )) + debug_escaped_char(s[i]));
    }
}

/// Joining one more path appends a separator and the path.
proof fn lemma_joined_snoc(ps: Seq<Seq<char>>, i: int)
    requires
        0 <= i < ps.len(),
    ensures
        i == 0 ==> joined_projects(ps.take(1)) == ps[0],
        i > 0 ==> joined_projects(ps.take(i + 1)) == joined_projects(ps.take(i)) + project_sep()
            + ps[i],
    decreases i,
{
    if i == 0 {
        assert(ps.take(1)[0] == ps[0]);
        assert(ps.take(1).len() == 1);
    } else {
        lemma_joined_snoc(ps.drop_first(), i - 1);
        assert(ps.take(i + 1)[0] == ps[0]);
        assert(ps.take(i + 1).drop_first() =~= ps.drop_first().take(i));
        assert(ps.take(i).drop_first() =~= ps.drop_first().take(i - 1));
        assert(ps.drop_first()[i - 1] == ps[i]);
        if i == 1 {
            assert(ps.drop_first().take(1)[0] == ps.drop_first()[0]);
            assert(joined_projects(ps.take(2)) == ps[0] + project_sep() + joined_projects(
                ps.drop_first().take(1),
            ));
            assert(joined_projects(ps.drop_first().take(1)) == ps.drop_first()[0]);
            assert(joined_projects(ps.take(1)) == ps[0]);
        } else {
            assert(joined_projects(ps.take(i + 1)) == ps[0] + project_sep() + joined_projects(
                ps.drop_first().take(i),
            ));
            assert(joined_projects(ps.take(i)) == ps[0] + project_sep() + joined_projects(
                ps.drop_first().take(i - 1),
            ));
            assert(ps[0] + project_sep() + (joined_projects(ps.drop_first().take(i - 1))
                + project_sep() + ps[i]) =~= (ps[0] + project_sep() + joined_projects(
                ps.drop_first().take(i - 1),
            )) + project_sep() + ps[i]);
        }
    }
}

} // verus!
