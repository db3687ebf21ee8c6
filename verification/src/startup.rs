//! What is decided and said while the server starts and stops: as whom it
//! runs, how its log reads, and how it ends.
use vstd::prelude::*;

use crate::filtering;
use crate::number;
use crate::text;

verus! {

/// The words of the error, where there is one.
pub open spec fn error_view(r: Result<(), String>) -> Option<Seq<char>> {
    match r {
        Ok(()) => None,
        Err(e) => Some(e@),
    }
}

/// The words about a user without a group or a group without a user.
pub open spec fn half_account_text() -> Seq<char> {
    "both 'user' and 'group' must be set together when requesting privilege drop"@
}

/// The account of a user and a group: both names or neither.
pub open spec fn account_of(user: Option<Seq<char>>, group: Option<Seq<char>>) -> Result<
    Option<(Seq<char>, Seq<char>)>,
    Seq<char>,
> {
    match (user, group) {
        (Some(u), Some(g)) => Ok(Some((u, g))),
        (None, None) => Ok(None),
        _ => Err(half_account_text()),
    }
}

/// The user and the group to switch to, or none where both are left out.
pub fn privilege_plan<'a>(user: &'a Option<String>, group: &'a Option<String>) -> (r: Result<
    Option<(&'a String, &'a String)>,
    String,
>)
    ensures
        match (user, group) {
            (Some(u), Some(g)) => r matches Ok(Some(pair)) && *pair.0 == u && *pair.1 == g,
            (None, None) => r matches Ok(None),
            _ => r matches Err(e) && e@ == half_account_text(),
        },
        match r {
            Ok(Some(pair)) => account_of(
                filtering::text_view(*user),
                filtering::text_view(*group),
            ) == Ok::<Option<(Seq<char>, Seq<char>)>, Seq<char>>(Some((pair.0@, pair.1@))),
            Ok(None) => account_of(filtering::text_view(*user), filtering::text_view(*group))
                == Ok::<Option<(Seq<char>, Seq<char>)>, Seq<char>>(None),
            Err(e) => account_of(filtering::text_view(*user), filtering::text_view(*group)) == Err::<
                Option<(Seq<char>, Seq<char>)>,
                Seq<char>,
            >(e@),
        },
{
    match (user, group) {
        (Some(u), Some(g)) => Ok(Some((u, g))),
        (None, None) => Ok(None),
        _ => Err(
            "both 'user' and 'group' must be set together when requesting privilege drop".to_owned(),
        ),
    }
}

/// Whether there are privileges to drop: the process runs as root or acts as
/// root.
pub fn must_drop_privileges(uid: u32, euid: u32) -> (r: bool)
    ensures
        r == (uid == 0 || euid == 0),
{
    uid == 0 || euid == 0
}

/// The words about a user or a group whose name holds a NUL, where one does.
pub open spec fn account_names_error(user: Seq<char>, group: Seq<char>) -> Option<Seq<char>> {
    if user.contains('\0') {
        Some("unable to create CString for user "@ + user)
    } else if group.contains('\0') {
        Some("unable to create CString for group "@ + group + ". Exiting."@)
    } else {
        None
    }
}

/// Refuses a user or a group whose name holds a NUL.
pub fn check_account_names(user: &str, group: &str) -> (r: Result<(), String>)
    ensures
        error_view(r) == account_names_error(user@, group@),
{
    let user_chars = text::chars_of(user);
    if text::has_char(&user_chars, '\0') {
        let mut message = "unable to create CString for user ".to_owned();
        message.append(user);
        return Err(message);
    }
    let group_chars = text::chars_of(group);
    if text::has_char(&group_chars, '\0') {
        let mut message = "unable to create CString for group ".to_owned();
        message.append(group);
        message.append(". Exiting.");
        return Err(message);
    }
    Ok(())
}

/// The words about a user or a group that the system does not know, where it
/// does not know one.
pub open spec fn accounts_error(
    user: Seq<char>,
    group: Seq<char>,
    user_found: bool,
    group_found: bool,
) -> Option<Seq<char>> {
    if !user_found {
        Some("unable to lookup user '"@ + user + "'. Exiting."@)
    } else if !group_found {
        Some("unable to lookup group '"@ + group + "'. Exiting."@)
    } else {
        None
    }
}

/// Refuses a user or a group that the system does not know.
pub fn check_accounts(user: &str, group: &str, user_found: bool, group_found: bool) -> (r: Result<
    (),
    String,
>)
    ensures
        error_view(r) == accounts_error(user@, group@, user_found, group_found),
{
    if !user_found {
        let mut message = "unable to lookup user '".to_owned();
        message.append(user);
        message.append("'. Exiting.");
        return Err(message);
    }
    if !group_found {
        let mut message = "unable to lookup group '".to_owned();
        message.append(group);
        message.append("'. Exiting.");
        return Err(message);
    }
    Ok(())
}

/// The words about a switch of the group or of the user that failed, where
/// one did.
pub open spec fn switch_error(setgid_rc: i32, setuid_rc: i32) -> Option<Seq<char>> {
    if setgid_rc < 0 {
        Some("unable to set gid. Exiting."@)
    } else if setuid_rc < 0 {
        Some("unable to set uid. Exiting."@)
    } else {
        None
    }
}

/// Refuses to go on where the switch of the group or of the user failed.
pub fn check_switch(setgid_rc: i32, setuid_rc: i32) -> (r: Result<(), String>)
    ensures
        error_view(r) == switch_error(setgid_rc, setuid_rc),
{
    if setgid_rc < 0 {
        return Err("unable to set gid. Exiting.".to_owned());
    }
    if setuid_rc < 0 {
        return Err("unable to set uid. Exiting.".to_owned());
    }
    Ok(())
}

/// What is being waited for while privileges are dropped.
#[derive(Clone, Copy, Debug, PartialEq, Eq, Structural)]
pub enum DropState {
    /// Who the process runs as and acts as.
    Asking,
    /// The accounts.
    LookingUp,
    /// The switch of the group; behind it the user with this number is
    /// switched to.
    SwitchingGroup(u32),
    /// The switch of the user; that of the group returned this.
    SwitchingUser(i32),
    /// Nothing any more.
    Over,
}

/// What comes of what was waited for.
#[derive(Clone, Copy, Debug, PartialEq, Eq, Structural)]
pub enum DropEvent {
    /// The numbers of the user that the process runs as and of the one that
    /// it acts as.
    Ids(u32, u32),
    /// The numbers of the user and of the group, where the system knows them.
    Accounts(Option<u32>, Option<u32>),
    /// What a switch returned.
    Returned(i32),
}

/// What is to be done next.
#[derive(Debug)]
pub enum DropAction {
    /// The accounts are to be looked up.
    LookUp,
    /// The process is to switch to the group with this number.
    SwitchGroup(u32),
    /// The process is to switch to the user with this number.
    SwitchUser(u32),
    /// That is all.
    Finish(Result<(), String>),
}

/// What a `DropAction` says.
pub enum DropActionView {
    LookUp,
    SwitchGroup(u32),
    SwitchUser(u32),
    Finish(Option<Seq<char>>),
}

impl View for DropAction {
    type V = DropActionView;

    open spec fn view(&self) -> DropActionView {
        match *self {
            DropAction::LookUp => DropActionView::LookUp,
            DropAction::SwitchGroup(gid) => DropActionView::SwitchGroup(gid),
            DropAction::SwitchUser(uid) => DropActionView::SwitchUser(uid),
            DropAction::Finish(r) => DropActionView::Finish(error_view(r)),
        }
    }
}

/// Whether the event is one that is being waited for.
pub open spec fn drop_awaits(state: DropState, event: DropEvent) -> bool {
    match state {
        DropState::Asking => event is Ids,
        DropState::LookingUp => event is Accounts,
        DropState::SwitchingGroup(_) | DropState::SwitchingUser(_) => event is Returned,
        DropState::Over => false,
    }
}

/// How dropping privileges in favour of `user` and `group` goes on. A process
/// that is not root has none to drop; otherwise the accounts are looked up,
/// then the group is switched, then the user.
pub open spec fn drop_next(
    user: Seq<char>,
    group: Seq<char>,
    state: DropState,
    event: DropEvent,
) -> (DropState, DropActionView) {
    match (state, event) {
        (DropState::Asking, DropEvent::Ids(uid, euid)) => if uid != 0 && euid != 0 {
            (DropState::Over, DropActionView::Finish(None))
        } else if account_names_error(user, group) is Some {
            (DropState::Over, DropActionView::Finish(account_names_error(user, group)))
        } else {
            (DropState::LookingUp, DropActionView::LookUp)
        },
        (DropState::LookingUp, DropEvent::Accounts(Some(uid), Some(gid))) => (
            DropState::SwitchingGroup(uid),
            DropActionView::SwitchGroup(gid),
        ),
        (DropState::LookingUp, DropEvent::Accounts(uid, gid)) => (
            DropState::Over,
            DropActionView::Finish(accounts_error(user, group, uid is Some, gid is Some)),
        ),
        (DropState::SwitchingGroup(uid), DropEvent::Returned(rc)) => (
            DropState::SwitchingUser(rc),
            DropActionView::SwitchUser(uid),
        ),
        (DropState::SwitchingUser(setgid_rc), DropEvent::Returned(rc)) => (
            DropState::Over,
            DropActionView::Finish(switch_error(setgid_rc, rc)),
        ),
        _ => (DropState::Over, DropActionView::Finish(None)),
    }
}

/// Goes on with dropping privileges in favour of `user` and `group`, once what
/// was waited for is there. The first state is `Asking`.
pub fn drop_step(user: &str, group: &str, state: DropState, event: DropEvent) -> (r: (
    DropState,
    DropAction,
))
    requires
        drop_awaits(state, event),
    ensures
        (r.0, r.1@) == drop_next(user@, group@, state, event),
{
    match (state, event) {
        (DropState::Asking, DropEvent::Ids(uid, euid)) => {
            if !must_drop_privileges(uid, euid) {
                return (DropState::Over, DropAction::Finish(Ok(())));
            }
            match check_account_names(user, group) {
                Ok(()) => (DropState::LookingUp, DropAction::LookUp),
                Err(e) => (DropState::Over, DropAction::Finish(Err(e))),
            }
        },
        (DropState::LookingUp, DropEvent::Accounts(Some(uid), Some(gid))) => (
            DropState::SwitchingGroup(uid),
            DropAction::SwitchGroup(gid),
        ),
        (DropState::LookingUp, DropEvent::Accounts(uid, gid)) => (
            DropState::Over,
            DropAction::Finish(check_accounts(user, group, uid.is_some(), gid.is_some())),
        ),
        (DropState::SwitchingGroup(uid), DropEvent::Returned(rc)) => (
            DropState::SwitchingUser(rc),
            DropAction::SwitchUser(uid),
        ),
        (DropState::SwitchingUser(setgid_rc), DropEvent::Returned(rc)) => (
            DropState::Over,
            DropAction::Finish(check_switch(setgid_rc, rc)),
        ),
        _ => (DropState::Over, DropAction::Finish(Ok(()))),
    }
}

/// What is outside: who the process runs as and acts as, the numbers of the
/// two accounts, where the system knows them, and what the switches return.
pub struct AccountsView {
    pub uid: u32,
    pub euid: u32,
    pub user: Option<u32>,
    pub group: Option<u32>,
    pub setgid_rc: i32,
    pub setuid_rc: i32,
}

impl AccountsView {
    /// What comes of what a state waits for.
    pub open spec fn event(self, state: DropState) -> DropEvent {
        match state {
            DropState::Asking => DropEvent::Ids(self.uid, self.euid),
            DropState::LookingUp => DropEvent::Accounts(self.user, self.group),
            DropState::SwitchingGroup(_) => DropEvent::Returned(self.setgid_rc),
            DropState::SwitchingUser(_) | DropState::Over => DropEvent::Returned(self.setuid_rc),
        }
    }
}

/// What is done from `state` on, in no more than `n` steps.
pub open spec fn drop_course(
    user: Seq<char>,
    group: Seq<char>,
    state: DropState,
    outside: AccountsView,
    n: nat,
) -> Seq<DropActionView>
    decreases n,
{
    if n == 0 || state == DropState::Over {
        Seq::empty()
    } else {
        let (next, action) = drop_next(user, group, state, outside.event(state));
        seq![action] + drop_course(user, group, next, outside, (n - 1) as nat)
    }
}

/// All that dropping privileges does, from start to end. Without root nothing
/// is done and it ends well. With root it ends well just where neither name
/// holds a NUL, both accounts are known and both switches return no error; the
/// group is switched before the user, and neither where an account is missing
/// or a name holds a NUL.
pub proof fn law_privileges_are_dropped(
    user: Seq<char>,
    group: Seq<char>,
    outside: AccountsView,
    n: nat,
)
    requires
        n >= 4,
    ensures
        drop_course(user, group, DropState::Asking, outside, n) == (if outside.uid != 0
            && outside.euid != 0 {
            seq![DropActionView::Finish(None)]
        } else if user.contains('\0') || group.contains('\0') {
            seq![DropActionView::Finish(account_names_error(user, group))]
        } else if outside.user is None || outside.group is None {
            seq![
                DropActionView::LookUp,
                DropActionView::Finish(
                    accounts_error(user, group, outside.user is Some, outside.group is Some),
                ),
            ]
        } else {
            seq![
                DropActionView::LookUp,
                DropActionView::SwitchGroup(outside.group.unwrap()),
                DropActionView::SwitchUser(outside.user.unwrap()),
                DropActionView::Finish(switch_error(outside.setgid_rc, outside.setuid_rc)),
            ]
        }),
        (account_names_error(user, group) is None) == (!user.contains('\0') && !group.contains(
            '\0',
        )),
        (accounts_error(user, group, outside.user is Some, outside.group is Some) is None) == (
        outside.user is Some && outside.group is Some),
        (switch_error(outside.setgid_rc, outside.setuid_rc) is None) == (outside.setgid_rc >= 0
            && outside.setuid_rc >= 0),
{
    reveal_with_fuel(drop_course, 6);
    let done = drop_course(user, group, DropState::Asking, outside, n);
    if outside.uid != 0 && outside.euid != 0 {
        assert(done =~= seq![DropActionView::Finish(None)]);
    } else if user.contains('\0') || group.contains('\0') {
        assert(done =~= seq![DropActionView::Finish(account_names_error(user, group))]);
    } else if outside.user is None || outside.group is None {
        assert(done =~= seq![
            DropActionView::LookUp,
            DropActionView::Finish(
                accounts_error(user, group, outside.user is Some, outside.group is Some),
            ),
        ]);
    } else {
        assert(done =~= seq![
            DropActionView::LookUp,
            DropActionView::SwitchGroup(outside.group.unwrap()),
            DropActionView::SwitchUser(outside.user.unwrap()),
            DropActionView::Finish(switch_error(outside.setgid_rc, outside.setuid_rc)),
        ]);
    }
}

/// The user is switched only behind the group, the group only where both
/// accounts were found, and accounts are looked up only by root.
pub proof fn law_order_of_switches(
    user: Seq<char>,
    group: Seq<char>,
    state: DropState,
    event: DropEvent,
)
    requires
        drop_awaits(state, event),
    ensures
        ({
            let (next, action) = drop_next(user, group, state, event);
            &&& action is SwitchUser ==> state is SwitchingGroup && event is Returned
            &&& next is SwitchingGroup <==> action is SwitchGroup
            &&& action is SwitchGroup ==> state == DropState::LookingUp && event
                == DropEvent::Accounts(
                Some(next->SwitchingGroup_0),
                Some(action->SwitchGroup_0),
            )
            &&& next == DropState::LookingUp <==> action is LookUp
            &&& action is LookUp ==> state == DropState::Asking && (event->Ids_0 == 0
                || event->Ids_1 == 0)
        }),
{
}

/// A span of the log: its name and its fields, which may be empty.
#[derive(Debug)]
pub struct SpanText {
    pub name: String,
    pub fields: String,
}

/// How a span reads: its name, and its fields in braces where it has any.
pub open spec fn span_text(span: SpanText) -> Seq<char> {
    ":"@ + span.name@ + if span.fields@.len() > 0 {
        "{"@ + span.fields@ + "}"@
    } else {
        ""@
    }
}

/// How spans read, from the root on.
pub open spec fn spans_text(spans: Seq<SpanText>) -> Seq<char>
    decreases spans.len(),
{
    if spans.len() == 0 {
        Seq::empty()
    } else {
        spans_text(spans.drop_last()) + span_text(spans.last())
    }
}

/// How a line of the log reads: when, how severe, from where and from which
/// line of it, in which spans, and what.
pub open spec fn log_text(
    now_secs: int,
    level: Seq<char>,
    target: Seq<char>,
    line: Option<u32>,
    spans: Seq<SpanText>,
    fields: Seq<char>,
) -> Seq<char> {
    number::signed_decimal(now_secs) + ":"@ + level + ":"@ + target + (match line {
        Some(n) => ":"@ + number::decimal(n as nat),
        None => ""@,
    }) + spans_text(spans) + ":"@ + fields + "\n"@
}

/// Writes a line of the log.
pub fn log_line(
    now_secs: i64,
    level: &str,
    target: &str,
    line: Option<u32>,
    spans: &Vec<SpanText>,
    fields: &str,
) -> (r: String)
    ensures
        r@ == log_text(now_secs as int, level@, target@, line, spans@, fields@),
{
    proof {
        reveal_strlit("");
    }
    let mut out = text::string_of(&number::write_signed(now_secs));
    out.append(":");
    out.append(level);
    out.append(":");
    out.append(target);
    match line {
        Some(n) => {
            let digits = text::string_of(&number::write_decimal(n as u64));
            out.append(":");
            out.append(digits.as_str());
        },
        None => {},
    }
    let ghost prefix = out@;
    let mut i: usize = 0;
    proof {
        assert(spans@.take(0) =~= Seq::<SpanText>::empty());
        assert(prefix + spans_text(spans@.take(0)) =~= prefix);
    }
    while i < spans.len()
        invariant
            i <= spans@.len(),
            out@ == prefix + spans_text(spans@.take(i as int)),
            (""@).len() == 0,
        decreases spans@.len() - i,
    {
        assert(spans@.take(i + 1).drop_last() =~= spans@.take(i as int));
        let span = &spans[i];
        out.append(":");
        out.append(span.name.as_str());
        if span.fields.as_str().unicode_len() > 0 {
            out.append("{");
            out.append(span.fields.as_str());
            out.append("}");
        }
        i = i + 1;
        assert(out@ =~= prefix + spans_text(spans@.take(i as int)));
    }
    assert(spans@.take(spans@.len() as int) =~= spans@);
    out.append(":");
    out.append(fields);
    out.append("\n");
    assert(out@ =~= log_text(now_secs as int, level@, target@, line, spans@, fields@));
    out
}

/// The lines that greet in the log.
pub fn banner() -> (r: Vec<String>)
    ensures
        text::texts(r@) == seq![""@, " Hickory DNS"@, ""@],
{
    let lines = vec!["".to_owned(), " Hickory DNS".to_owned(), "".to_owned()];
    assert(text::texts(lines@) =~= seq![""@, " Hickory DNS"@, ""@]);
    lines
}

/// The words about a server that ended with an error.
pub open spec fn run_error_text(version: Seq<char>, err: Seq<char>) -> Seq<char> {
    "Hickory DNS "@ + version + " has encountered an error: "@ + err
}

/// How the run of the server ends: as it went, with the version in the words
/// of an error.
pub fn finish_server_run(version: &str, result: Result<(), String>) -> (r: Result<(), String>)
    ensures
        match (result, r) {
            (Ok(()), Ok(())) => true,
            (Err(err), Err(e)) => e@ == run_error_text(version@, err@),
            _ => false,
        },
{
    match result {
        Ok(()) => Ok(()),
        Err(err) => {
            let mut message = "Hickory DNS ".to_owned();
            message.append(version);
            message.append(" has encountered an error: ");
            message.append(err.as_str());
            Err(message)
        },
    }
}

} // verus!
