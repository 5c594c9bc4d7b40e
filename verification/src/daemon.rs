//! Daemon-side request handling: the decision logic of the status endpoint
//! and of the upgrade trigger, over the command gate and the package state
//! capability, and the naming rules for the daemon's service advertisement.

use vstd::prelude::*;

use crate::gate::UpgradeGate;
use crate::text::{
    append_str, chars_string, dec_rep, find_first, first_index_of, push_dec, str_chars, trim_end,
    trim_end_chars,
};

verus! {

/// The fixed explanation returned when the package manager capability is
/// absent.
pub open spec fn spec_unavailable_message() -> Seq<char> {
    "the system is not a Debian-based Linux system"@
}

/// HTTP-level code of a status request: precondition-failed without the
/// package manager, server error when the inspection failed, success
/// otherwise.
pub open spec fn spec_status_code(
    apt_available: bool,
    updates: Result<Seq<Seq<char>>, Seq<char>>,
) -> int {
    if !apt_available {
        412
    } else {
        match updates {
            Ok(_) => 200,
            Err(_) => 500,
        }
    }
}

/// Message of a status reply: the capability explanation, the up-to-date or
/// outdated-count summary, or the inspection failure.
pub open spec fn spec_status_message(
    apt_available: bool,
    updates: Result<Seq<Seq<char>>, Seq<char>>,
) -> Seq<char> {
    if !apt_available {
        spec_unavailable_message()
    } else {
        match updates {
            Ok(u) => if u.len() == 0 {
                "System is up to date"@
            } else {
                "System has "@ + dec_rep(u.len()) + " outdated packages"@
            },
            Err(e) => "Failed to check for updates: "@ + e,
        }
    }
}

/// The outdated-package list of a status reply: what the inspection
/// reported, and nothing at all when the capability is absent or the
/// inspection failed.
pub open spec fn spec_status_updates(
    apt_available: bool,
    updates: Result<Seq<Seq<char>>, Seq<char>>,
) -> Seq<Seq<char>> {
    if !apt_available {
        Seq::empty()
    } else {
        match updates {
            Ok(u) => u,
            Err(_) => Seq::empty(),
        }
    }
}

/// One status reply: code, message, outdated packages and the flag value.
pub struct StatusReply {
    pub code: u16,
    pub message: String,
    pub updates: Vec<String>,
    pub is_upgrading: bool,
}

/// Answer one status request. The reply is computed fresh from the
/// capability probe, the inspection result and the flag: its value is
/// reported as read, independent of the capability's availability.
pub fn status_reply(
    apt_available: bool,
    updates: Result<Vec<String>, String>,
    gate: &UpgradeGate,
) -> (r: StatusReply)
    ensures
        ({
            let u = match updates {
                Ok(us) => Ok(us@.map_values(|s: String| s@)),
                Err(e) => Err(e@),
            };
            r.code == spec_status_code(apt_available, u) && r.message@ == spec_status_message(
                apt_available,
                u,
            ) && r.updates@.map_values(|s: String| s@) == spec_status_updates(apt_available, u)
        }),
        r.is_upgrading == gate@,
{
    let is_upgrading = gate.is_upgrading();
    if !apt_available {
        let r = StatusReply {
            code: 412,
            message: String::from_str("the system is not a Debian-based Linux system"),
            updates: Vec::new(),
            is_upgrading,
        };
        proof {
            assert(r.updates@.map_values(|s: String| s@) =~= Seq::<Seq<char>>::empty());
        }
        return r;
    }
    match updates {
        Ok(us) => {
            let message = if us.len() == 0 {
                String::from_str("System is up to date")
            } else {
                let mut m: Vec<char> = Vec::new();
                append_str(&mut m, "System has ");
                push_dec(us.len() as u64, &mut m);
                append_str(&mut m, " outdated packages");
                chars_string(&m)
            };
            StatusReply { code: 200, message, updates: us, is_upgrading }
        },
        Err(e) => {
            let mut m: Vec<char> = Vec::new();
            append_str(&mut m, "Failed to check for updates: ");
            append_str(&mut m, e.as_str());
            let r = StatusReply {
                code: 500,
                message: chars_string(&m),
                updates: Vec::new(),
                is_upgrading,
            };
            proof {
                assert(r.updates@.map_values(|s: String| s@) =~= Seq::<Seq<char>>::empty());
            }
            r
        },
    }
}

/// One upgrade-trigger request, as a transition of the upgrade flag: the
/// reply code, the reply message, and the flag value afterwards. Without the
/// package manager, or with an upgrade already in flight, the request is
/// rejected with a precondition failure and the flag is left untouched;
/// otherwise the request succeeds and the flag is set.
pub open spec fn spec_upgrade_step(apt_available: bool, upgrading: bool) -> (int, Seq<char>, bool) {
    if !apt_available {
        (412, spec_unavailable_message(), upgrading)
    } else if upgrading {
        (412, "a full upgrade is currently running"@, upgrading)
    } else {
        (200, "full upgrade triggered"@, true)
    }
}

/// One reply of the upgrade trigger endpoint.
pub struct UpgradeReply {
    pub code: u16,
    pub message: String,
    /// Whether the caller must now launch the background upgrade operation
    /// (and release the flag when it finishes).
    pub launch: bool,
}

/// Answer one upgrade-trigger request: check the capability, then take the
/// gate by compare-and-swap. Exactly the successful reply instructs the
/// caller to launch the background operation.
pub fn full_upgrade_request(apt_available: bool, gate: &mut UpgradeGate) -> (r: UpgradeReply)
    ensures
        r.code as int == spec_upgrade_step(apt_available, old(gate)@).0,
        r.message@ == spec_upgrade_step(apt_available, old(gate)@).1,
        final(gate)@ == spec_upgrade_step(apt_available, old(gate)@).2,
        r.launch == (r.code == 200),
{
    if !apt_available {
        return UpgradeReply {
            code: 412,
            message: String::from_str("the system is not a Debian-based Linux system"),
            launch: false,
        };
    }
    if gate.try_acquire() {
        UpgradeReply { code: 200, message: String::from_str("full upgrade triggered"), launch: true }
    } else {
        UpgradeReply {
            code: 412,
            message: String::from_str("a full upgrade is currently running"),
            launch: false,
        }
    }
}

/// Gate mutual-exclusion law: two upgrade-trigger requests against an idle
/// gate, with the package manager available, yield — in whichever order the
/// gate serializes them — exactly one success and one precondition failure;
/// the rejected request leaves the flag untouched, so at most one upgrade is
/// ever in flight; and the flag value a rejected or successful pair leaves behind
/// reads as held until the background operation releases it.
pub proof fn lemma_gate_mutual_exclusion()
    ensures
        spec_upgrade_step(true, false).0 == 200,
        spec_upgrade_step(true, spec_upgrade_step(true, false).2).0 == 412,
        spec_upgrade_step(true, spec_upgrade_step(true, false).2).2 == spec_upgrade_step(
            true,
            false,
        ).2,
        spec_upgrade_step(true, true).0 == 412 && spec_upgrade_step(true, true).2,
{
}

/// The advertised instance host: the hostname up to its first dot.
pub open spec fn spec_instance_host(hostname: Seq<char>) -> Seq<char> {
    hostname.subrange(0, first_index_of(hostname, '.'))
}

/// What the daemon registers as its advertisement: the instance name, the
/// advertised host name, the service type, and the `id` property.
pub struct MdnsPlan {
    pub instance: String,
    pub host_name: String,
    pub service_type: String,
    pub id: String,
}

/// Plan the daemon's service advertisement for a hostname: the instance is
/// `cobblerd-` followed by the hostname's first label, the advertised host is
/// that label under `.local.`, and the `id` property carries the full
/// hostname.
pub fn mdns_plan(hostname: &String) -> (p: MdnsPlan)
    ensures
        p.instance@ == "cobblerd-"@ + spec_instance_host(hostname@),
        p.host_name@ == spec_instance_host(hostname@) + ".local."@,
        p.service_type@ == "_cobbler._tcp.local."@,
        p.id@ == hostname@,
{
    let chars = str_chars(hostname.as_str());
    let cut = find_first(&chars, '.');
    let label = crate::text::prefix_chars(&chars, cut);
    let mut instance: Vec<char> = Vec::new();
    append_str(&mut instance, "cobblerd-");
    crate::text::append_chars(&mut instance, &label);
    let mut host_name: Vec<char> = Vec::new();
    crate::text::append_chars(&mut host_name, &label);
    append_str(&mut host_name, ".local.");
    MdnsPlan {
        instance: chars_string(&instance),
        host_name: chars_string(&host_name),
        service_type: String::from_str("_cobbler._tcp.local."),
        id: hostname.clone(),
    }
}

/// A hostname as used for advertisement: trailing dots stripped.
pub fn normalize_hostname(hostname: &str) -> (r: String)
    ensures
        r@ == trim_end(hostname@, '.'),
{
    let chars = str_chars(hostname);
    let trimmed = trim_end_chars(&chars, '.');
    chars_string(&trimmed)
}

} // verus!
