//! Dropping privileges: who to become, and whether that went well.

use crate::text::{
    cat3, chars_of, decimal, next_char, own, read_u32, seek_char, u32_of, write_number,
};
use vstd::prelude::*;
use vstd::string::*;

verus! {

/// The identity of a process.
#[derive(Clone, Copy, Debug, PartialEq, Eq, Structural)]
pub struct Ids {
    pub uid: u32,
    pub gid: u32,
    pub euid: u32,
    pub egid: u32,
}

/// The text of an identity; effective ids are named if they differ.
pub open spec fn identity_text(i: Ids) -> Seq<char> {
    let plain = "uid="@ + decimal(i.uid as nat) + " gid="@ + decimal(i.gid as nat);
    if i.uid == i.euid && i.gid == i.egid {
        plain
    } else {
        plain + " euid="@ + decimal(i.euid as nat) + " egid="@ + decimal(i.egid as nat)
    }
}

/// Writes the identity of a process; `ids` is absent where there are no user
/// ids.
pub fn identity(ids: Option<Ids>) -> (r: String)
    ensures
        r@ == (match ids {
            Some(i) => identity_text(i),
            None => "no-uid-model"@,
        }),
{
    match ids {
        Some(i) => {
            let mut s = cat3("uid=", write_number(i.uid as u64).as_str(), " gid=");
            s.append(write_number(i.gid as u64).as_str());
            if !(i.uid == i.euid && i.gid == i.egid) {
                s.append(" euid=");
                s.append(write_number(i.euid as u64).as_str());
                s.append(" egid=");
                s.append(write_number(i.egid as u64).as_str());
            }
            s
        },
        None => own("no-uid-model"),
    }
}

/// The id of a user or group: a number is itself, a name is what the system
/// knows it as.
pub open spec fn resolved(spec_text: Seq<char>, what: Seq<char>, known: Option<u32>) -> Result<
    u32,
    Seq<char>,
> {
    match u32_of(spec_text) {
        Some(n) => Ok(n),
        None => if next_char(spec_text, 0, '\0') < spec_text.len() {
            Err("bad "@ + what + " name '"@ + spec_text + "'"@)
        } else {
            match known {
                Some(n) => Ok(n),
                None => Err("unknown "@ + what + " '"@ + spec_text + "'"@),
            }
        },
    }
}

fn resolve(spec_text: &str, what: &str, known: Option<u32>) -> (r: Result<u32, String>)
    ensures
        resolved(spec_text@, what@, known) == (match r {
            Ok(n) => Ok(n),
            Err(m) => Err(m@),
        }),
{
    match read_u32(spec_text) {
        Some(n) => Ok(n),
        None => {
            let v = chars_of(spec_text);
            if seek_char(&v, 0, '\0') < v.len() {
                let mut m = cat3("bad ", what, " name '");
                m.append(spec_text);
                m.append("'");
                return Err(m);
            }
            match known {
                Some(n) => Ok(n),
                None => {
                    let mut m = cat3("unknown ", what, " '");
                    m.append(spec_text);
                    m.append("'");
                    Err(m)
                },
            }
        },
    }
}

/// Resolves a user; `known` is what the user database says of the name.
pub fn resolve_uid(spec_text: &str, known: Option<u32>) -> (r: Result<u32, String>)
    ensures
        resolved(spec_text@, "user"@, known) == (match r {
            Ok(n) => Ok(n),
            Err(m) => Err(m@),
        }),
{
    resolve(spec_text, "user", known)
}

/// Resolves a group; `known` is what the group database says of the name.
pub fn resolve_gid(spec_text: &str, known: Option<u32>) -> (r: Result<u32, String>)
    ensures
        resolved(spec_text@, "group"@, known) == (match r {
            Ok(n) => Ok(n),
            Err(m) => Err(m@),
        }),
{
    resolve(spec_text, "group", known)
}

/// What the system says before a drop.
#[derive(Clone, Copy, Debug, PartialEq, Eq, Structural)]
pub struct SystemView {
    /// What the user database says of the user's name.
    pub user: Option<u32>,
    /// What the group database says of the group's name.
    pub group: Option<u32>,
    /// The login group of the user.
    pub login_group: Option<u32>,
    pub ids: Ids,
}

/// What a drop takes.
#[derive(Clone, Copy, Debug, PartialEq, Eq, Structural)]
pub enum DropPlan {
    /// The process is the user already.
    Nothing,
    /// Clear the groups, then become the group, then the user.
    Switch { uid: u32, gid: u32 },
}

/// The group to become: the one named, or the user's login group.
pub open spec fn target_gid(group: Option<Seq<char>>, uid: u32, v: SystemView) -> Result<
    u32,
    Seq<char>,
> {
    match group {
        Some(g) => resolved(g, "group"@, v.group),
        None => match v.login_group {
            Some(n) => Ok(n),
            None => Err(
                "cannot determine login group for uid "@ + decimal(uid as nat) + "; pass --group"@,
            ),
        },
    }
}

/// Why a process without root cannot become another user or group.
pub open spec fn switch_refused(what: Seq<char>, to: u32, from: u32) -> Seq<char> {
    "cannot switch to "@ + what + " "@ + decimal(to as nat) + " without root (running as "@ + what
        + " "@ + decimal(from as nat) + ")"@
}

fn write_refused(what: &str, to: u32, from: u32) -> (m: String)
    ensures
        m@ == switch_refused(what@, to, from),
{
    let mut m = cat3("cannot switch to ", what, " ");
    m.append(write_number(to as u64).as_str());
    m.append(" without root (running as ");
    m.append(what);
    m.append(" ");
    m.append(write_number(from as u64).as_str());
    m.append(")");
    m
}

/// What a drop takes, or why it cannot be. Without root only the process's own
/// user will do, and its own group if one is named.
pub open spec fn drop_plan(user: Seq<char>, group: Option<Seq<char>>, v: SystemView) -> Result<
    DropPlan,
    Seq<char>,
> {
    match resolved(user, "user"@, v.user) {
        Err(e) => Err(e),
        Ok(uid) => match target_gid(group, uid, v) {
            Err(e) => Err(e),
            Ok(gid) => if v.ids.euid != 0 {
                if uid != v.ids.uid {
                    Err(switch_refused("uid"@, uid, v.ids.uid))
                } else if group is Some && gid != v.ids.gid {
                    Err(switch_refused("gid"@, gid, v.ids.gid))
                } else {
                    Ok(DropPlan::Nothing)
                }
            } else {
                Ok(DropPlan::Switch { uid, gid })
            },
        },
    }
}

/// Plans a drop to a user and group; `view` is absent where there are no user
/// ids.
pub fn drop_privileges(user: &str, group: Option<&str>, view: Option<SystemView>) -> (r: Result<
    DropPlan,
    String,
>)
    ensures
        (match view {
            Some(v) => drop_plan(
                user@,
                match group {
                    Some(g) => Some(g@),
                    None => None,
                },
                v,
            ),
            None => Err("privilege drop is not supported on this platform"@),
        }) == (match r {
            Ok(p) => Ok(p),
            Err(m) => Err(m@),
        }),
{
    let v = match view {
        Some(v) => v,
        None => {
            return Err(own("privilege drop is not supported on this platform"));
        },
    };
    let uid: u32 = match resolve_uid(user, v.user) {
        Ok(n) => n,
        Err(m) => {
            return Err(m);
        },
    };
    let gid: u32 = match group {
        Some(g) => match resolve_gid(g, v.group) {
            Ok(n) => n,
            Err(m) => {
                return Err(m);
            },
        },
        None => match v.login_group {
            Some(n) => n,
            None => {
                return Err(
                    cat3(
                        "cannot determine login group for uid ",
                        write_number(uid as u64).as_str(),
                        "; pass --group",
                    ),
                );
            },
        },
    };
    if v.ids.euid != 0 {
        if uid != v.ids.uid {
            return Err(write_refused("uid", uid, v.ids.uid));
        }
        if group.is_some() && gid != v.ids.gid {
            return Err(write_refused("gid", gid, v.ids.gid));
        }
        return Ok(DropPlan::Nothing);
    }
    Ok(DropPlan::Switch { uid, gid })
}

/// How far a switch got.
#[derive(Clone, Copy, Debug, PartialEq, Eq, Structural)]
pub enum SwitchEnd {
    /// A step failed.
    GroupsFailed,
    GidFailed,
    UidFailed,
    /// All steps were taken; the ids after them.
    Taken { uid: u32, euid: u32 },
}

/// Why a switch is no success.
pub open spec fn switch_fault(uid: u32, gid: u32, e: SwitchEnd) -> Option<Seq<char>> {
    match e {
        SwitchEnd::GroupsFailed => Some("setgroups failed"@),
        SwitchEnd::GidFailed => Some("setgid("@ + decimal(gid as nat) + ") failed"@),
        SwitchEnd::UidFailed => Some("setuid("@ + decimal(uid as nat) + ") failed"@),
        SwitchEnd::Taken { uid: u, euid } => if u == uid && euid == uid {
            None
        } else {
            Some("privilege drop did not take effect"@)
        },
    }
}

/// Judges a switch: it is a success only if the process is the user in the
/// end.
pub fn judge_switch(uid: u32, gid: u32, e: SwitchEnd) -> (r: Result<(), String>)
    ensures
        match r {
            Ok(()) => switch_fault(uid, gid, e) is None,
            Err(m) => switch_fault(uid, gid, e) == Some(m@),
        },
{
    match e {
        SwitchEnd::GroupsFailed => Err(own("setgroups failed")),
        SwitchEnd::GidFailed => Err(
            cat3("setgid(", write_number(gid as u64).as_str(), ") failed"),
        ),
        SwitchEnd::UidFailed => Err(
            cat3("setuid(", write_number(uid as u64).as_str(), ") failed"),
        ),
        SwitchEnd::Taken { uid: u, euid } => if u == uid && euid == uid {
            Ok(())
        } else {
            Err(own("privilege drop did not take effect"))
        },
    }
}

/// A drop never leaves root behind unnoticed: a plan for a user other than
/// root that is judged a success ended with the process not being root.
pub proof fn success_means_dropped(uid: u32, gid: u32, e: SwitchEnd)
    requires
        uid != 0,
        switch_fault(uid, gid, e) is None,
    ensures
        e matches SwitchEnd::Taken { uid: u, euid } && u != 0 && euid != 0,
{
}

/// Without root, the only drop that is planned is to the process's own user,
/// and to its own group if one is named.
pub proof fn unprivileged_drops_are_to_self(
    user: Seq<char>,
    group: Option<Seq<char>>,
    v: SystemView,
)
    requires
        v.ids.euid != 0,
        drop_plan(user, group, v) is Ok,
    ensures
        drop_plan(user, group, v)->Ok_0 == DropPlan::Nothing,
        resolved(user, "user"@, v.user) == Ok::<u32, Seq<char>>(v.ids.uid),
        group is Some ==> resolved(group->0, "group"@, v.group) == Ok::<u32, Seq<char>>(v.ids.gid),
{
}

} // verus!
