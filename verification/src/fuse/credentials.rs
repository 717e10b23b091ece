//! Acting on the file system with the identity of the requesting process.

use vstd::prelude::*;

verus! {

/// Switching to the ids of a request, one call at a time. Setting a file system id reports
/// the id that was in effect before, so each id is set twice: the second report tells whether
/// the first call took effect.
#[derive(Clone, Copy, Debug, PartialEq, Eq, Structural)]
pub enum CredentialStage {
    /// Set the user id; the answer is the id to go back to.
    SetUid { uid: u32, gid: u32 },
    /// Set the user id again; the answer is the id in effect.
    VerifyUid { uid: u32, gid: u32, old_uid: u32 },
    /// Set the group id; the answer is the id to go back to.
    SetGid { gid: u32, old_uid: u32 },
    /// Set the group id again; the answer is the id in effect.
    VerifyGid { gid: u32, old_uid: u32, old_gid: u32 },
    /// The request's ids are in effect.
    Entered { old_uid: u32, old_gid: u32 },
    /// Go back to the old group id, then to the old user id.
    RestoreGid { old_uid: u32, old_gid: u32, denied: Option<DeniedId> },
    /// Go back to the old user id.
    RestoreUid { old_uid: u32, denied: Option<DeniedId> },
    /// The old ids are in effect. Where an id could not be set, the request is refused.
    Left { denied: Option<DeniedId> },
}

/// The id that could not be set.
#[derive(Clone, Copy, Debug, PartialEq, Eq, Structural)]
pub enum DeniedId {
    Uid(u32),
    Gid(u32),
}

/// The call that a stage makes.
#[derive(Clone, Copy, Debug, PartialEq, Eq, Structural)]
pub enum CredentialCall {
    SetFsUid(u32),
    SetFsGid(u32),
    Nothing,
}

impl CredentialStage {
    /// The call that is due.
    pub open spec fn due(self) -> CredentialCall {
        match self {
            CredentialStage::SetUid { uid, .. } => CredentialCall::SetFsUid(uid),
            CredentialStage::VerifyUid { uid, .. } => CredentialCall::SetFsUid(uid),
            CredentialStage::SetGid { gid, .. } => CredentialCall::SetFsGid(gid),
            CredentialStage::VerifyGid { gid, .. } => CredentialCall::SetFsGid(gid),
            CredentialStage::Entered { .. } => CredentialCall::Nothing,
            CredentialStage::RestoreGid { old_gid, .. } => CredentialCall::SetFsGid(old_gid),
            CredentialStage::RestoreUid { old_uid, .. } => CredentialCall::SetFsUid(old_uid),
            CredentialStage::Left { .. } => CredentialCall::Nothing,
        }
    }

    /// The stage after the call that was due reported `answer`.
    pub open spec fn after(self, answer: u32) -> CredentialStage {
        match self {
            CredentialStage::SetUid { uid, gid } => CredentialStage::VerifyUid {
                uid,
                gid,
                old_uid: answer,
            },
            CredentialStage::VerifyUid { uid, gid, old_uid } => if answer != uid {
                CredentialStage::RestoreUid { old_uid, denied: Some(DeniedId::Uid(uid)) }
            } else {
                CredentialStage::SetGid { gid, old_uid }
            },
            CredentialStage::SetGid { gid, old_uid } => CredentialStage::VerifyGid {
                gid,
                old_uid,
                old_gid: answer,
            },
            CredentialStage::VerifyGid { gid, old_uid, old_gid } => if answer != gid {
                CredentialStage::RestoreGid { old_uid, old_gid, denied: Some(DeniedId::Gid(gid)) }
            } else {
                CredentialStage::Entered { old_uid, old_gid }
            },
            CredentialStage::Entered { .. } => self,
            CredentialStage::RestoreGid { old_uid, denied, .. } => CredentialStage::RestoreUid {
                old_uid,
                denied,
            },
            CredentialStage::RestoreUid { denied, .. } => CredentialStage::Left { denied },
            CredentialStage::Left { .. } => self,
        }
    }

    /// Begins to act for a request.
    pub fn enter(uid: u32, gid: u32) -> (r: Self)
        ensures
            r == (CredentialStage::SetUid { uid, gid }),
    {
        CredentialStage::SetUid { uid, gid }
    }

    /// The call to make now.
    pub fn call(self) -> (r: CredentialCall)
        ensures
            r == self.due(),
    {
        match self {
            CredentialStage::SetUid { uid, .. } => CredentialCall::SetFsUid(uid),
            CredentialStage::VerifyUid { uid, .. } => CredentialCall::SetFsUid(uid),
            CredentialStage::SetGid { gid, .. } => CredentialCall::SetFsGid(gid),
            CredentialStage::VerifyGid { gid, .. } => CredentialCall::SetFsGid(gid),
            CredentialStage::Entered { .. } => CredentialCall::Nothing,
            CredentialStage::RestoreGid { old_gid, .. } => CredentialCall::SetFsGid(old_gid),
            CredentialStage::RestoreUid { old_uid, .. } => CredentialCall::SetFsUid(old_uid),
            CredentialStage::Left { .. } => CredentialCall::Nothing,
        }
    }

    /// Takes in what the call reported.
    pub fn answered(self, answer: u32) -> (r: Self)
        ensures
            r == self.after(answer),
    {
        match self {
            CredentialStage::SetUid { uid, gid } => CredentialStage::VerifyUid {
                uid,
                gid,
                old_uid: answer,
            },
            CredentialStage::VerifyUid { uid, gid, old_uid } => {
                if answer != uid {
                    CredentialStage::RestoreUid { old_uid, denied: Some(DeniedId::Uid(uid)) }
                } else {
                    CredentialStage::SetGid { gid, old_uid }
                }
            },
            CredentialStage::SetGid { gid, old_uid } => CredentialStage::VerifyGid {
                gid,
                old_uid,
                old_gid: answer,
            },
            CredentialStage::VerifyGid { gid, old_uid, old_gid } => {
                if answer != gid {
                    CredentialStage::RestoreGid {
                        old_uid,
                        old_gid,
                        denied: Some(DeniedId::Gid(gid)),
                    }
                } else {
                    CredentialStage::Entered { old_uid, old_gid }
                }
            },
            CredentialStage::Entered { .. } => self,
            CredentialStage::RestoreGid { old_uid, denied, .. } => CredentialStage::RestoreUid {
                old_uid,
                denied,
            },
            CredentialStage::RestoreUid { denied, .. } => CredentialStage::Left { denied },
            CredentialStage::Left { .. } => self,
        }
    }

    /// Begins to go back to the old ids. Where the ids were never entered there is nothing to
    /// go back from.
    pub fn leave(self) -> (r: Self)
        ensures
            r == (match self {
                CredentialStage::Entered { old_uid, old_gid } => CredentialStage::RestoreGid {
                    old_uid,
                    old_gid,
                    denied: None,
                },
                other => other,
            }),
    {
        match self {
            CredentialStage::Entered { old_uid, old_gid } => CredentialStage::RestoreGid {
                old_uid,
                old_gid,
                denied: None,
            },
            other => other,
        }
    }
}

/// The ids in effect after a call that the system grants or refuses.
pub open spec fn ids_after(ids: (u32, u32), call: CredentialCall, granted: bool) -> (u32, u32) {
    match call {
        CredentialCall::SetFsUid(uid) => if granted {
            (uid, ids.1)
        } else {
            ids
        },
        CredentialCall::SetFsGid(gid) => if granted {
            (ids.0, gid)
        } else {
            ids
        },
        CredentialCall::Nothing => ids,
    }
}

/// What a call reports: the id in effect before it.
pub open spec fn report(ids: (u32, u32), call: CredentialCall) -> u32 {
    match call {
        CredentialCall::SetFsUid(_) => ids.0,
        CredentialCall::SetFsGid(_) => ids.1,
        CredentialCall::Nothing => 0,
    }
}

/// How the ids in effect relate to the stage, when the switch began at `start` for `want`
/// and going back is always granted.
pub open spec fn consistent(
    stage: CredentialStage,
    ids: (u32, u32),
    start: (u32, u32),
    want: (u32, u32),
) -> bool {
    match stage {
        CredentialStage::SetUid { uid, gid } => ids == start && (uid, gid) == want,
        CredentialStage::VerifyUid { uid, gid, old_uid } => ids.1 == start.1 && old_uid == start.0
            && (uid, gid) == want && (ids.0 == start.0 || ids.0 == want.0),
        CredentialStage::SetGid { gid, old_uid } => ids == (want.0, start.1) && old_uid == start.0
            && gid == want.1,
        CredentialStage::VerifyGid { gid, old_uid, old_gid } => ids.0 == want.0 && old_uid
            == start.0 && old_gid == start.1 && gid == want.1 && (ids.1 == start.1 || ids.1
            == want.1),
        CredentialStage::Entered { old_uid, old_gid } => ids == want && (old_uid, old_gid)
            == start,
        CredentialStage::RestoreGid { old_uid, old_gid, denied } => (old_uid, old_gid) == start,
        CredentialStage::RestoreUid { old_uid, denied } => old_uid == start.0 && ids.1 == start.1,
        CredentialStage::Left { .. } => ids == start,
    }
}

/// A switch ends with the wanted ids in effect, or with the old ones: whatever the system
/// refuses on the way in, nobody is left acting under half of an identity. Going back to ids
/// that were in effect is taken to be granted.
pub proof fn law_identity_is_all_or_nothing(
    stage: CredentialStage,
    ids: (u32, u32),
    start: (u32, u32),
    want: (u32, u32),
    granted: bool,
)
    requires
        consistent(stage, ids, start, want),
        stage is RestoreUid || stage is RestoreGid ==> granted,
    ensures
        consistent(
            stage.after(report(ids, stage.due())),
            ids_after(ids, stage.due(), granted),
            start,
            want,
        ),
{
}

/// Entering and leaving an identity, with all calls granted, sets the wanted user and then the
/// wanted group, and then the old group and the old user again.
pub proof fn law_identity_is_entered_and_left(uid: u32, gid: u32, old_uid: u32, old_gid: u32)
    ensures
        ({
            let s0 = CredentialStage::SetUid { uid, gid };
            let s1 = s0.after(old_uid);
            let s2 = s1.after(uid);
            let s3 = s2.after(old_gid);
            let s4 = s3.after(gid);
            &&& s0.due() == CredentialCall::SetFsUid(uid)
            &&& s1.due() == CredentialCall::SetFsUid(uid)
            &&& s2.due() == CredentialCall::SetFsGid(gid)
            &&& s3.due() == CredentialCall::SetFsGid(gid)
            &&& s4 == (CredentialStage::Entered { old_uid, old_gid })
        }),
        ({
            let back = CredentialStage::RestoreGid { old_uid, old_gid, denied: None };
            let then = back.after(gid);
            &&& back.due() == CredentialCall::SetFsGid(old_gid)
            &&& then.due() == CredentialCall::SetFsUid(old_uid)
            &&& then.after(uid) == (CredentialStage::Left { denied: None })
        }),
{
}

/// A switch that the system does not carry out is noticed, undone, and told as the id that was
/// denied; it is never entered.
pub proof fn law_denied_ids_are_told(
    uid: u32,
    gid: u32,
    old_uid: u32,
    old_gid: u32,
    answer: u32,
    x: u32,
    y: u32,
)
    ensures
        answer != uid ==> ({
            let denied = (CredentialStage::VerifyUid { uid, gid, old_uid }).after(answer);
            &&& denied.due() == CredentialCall::SetFsUid(old_uid)
            &&& denied.after(x) == (CredentialStage::Left { denied: Some(DeniedId::Uid(uid)) })
        }),
        answer != gid ==> ({
            let denied = (CredentialStage::VerifyGid { gid, old_uid, old_gid }).after(answer);
            &&& denied.due() == CredentialCall::SetFsGid(old_gid)
            &&& denied.after(x).due() == CredentialCall::SetFsUid(old_uid)
            &&& denied.after(x).after(y) == (CredentialStage::Left {
                denied: Some(DeniedId::Gid(gid)),
            })
        }),
{
}

/// The user is settled before the group is set: the identity counts as entered only when both ids
/// were reported to be in effect.
pub proof fn law_entered_only_when_both_ids_hold(stage: CredentialStage, answer: u32)
    ensures
        stage.after(answer) is Entered && !(stage is Entered) ==> (stage matches
            CredentialStage::VerifyGid { gid, old_uid, old_gid } && answer == gid && stage.after(
            answer,
        ) == (CredentialStage::Entered { old_uid, old_gid })),
        stage.after(answer) is SetGid ==> (stage matches CredentialStage::VerifyUid { uid, .. }
            && answer == uid),
{
}

} // verus!
