//! Connecting to hosts: what a connect is described by, and how often a host
//! is used.

use vstd::prelude::*;
use vstd::string::*;
use crate::hosts;
use crate::preferences::{HostUsage, Usage};
use crate::settings::Tty7App;
use crate::ssh_connect;
use crate::ssh_connect::{AliasResolver, NativeSshSpec};
use crate::ssh_profile;
use crate::ssh_profile::{InMemoryCredentialStore, QuickConnect, SshProfile};

verus! {

/// The use of the hosts after one more connect to `id`.
pub open spec fn bumped(v: Seq<HostUsage>, id: u128, now: u64) -> Seq<HostUsage> {
    match hosts::usage_place(v, id) {
        Some(i) => v.update(
            i,
            HostUsage {
                id,
                usage: Usage {
                    count: if v[i].usage.count == u32::MAX {
                        u32::MAX
                    } else {
                        (v[i].usage.count + 1) as u32
                    },
                    last_used: now,
                },
            },
        ),
        None => v.push(HostUsage { id, usage: Usage { count: 1, last_used: now } }),
    }
}

/// A pane whose connection may be gone: whether it is, and what it was
/// described by.
#[derive(Debug)]
pub struct SshPane {
    pub disconnected: bool,
    pub spec: Option<Box<NativeSshSpec>>,
}

fn bump(v: &mut Vec<HostUsage>, id: u128, now: u64)
    ensures
        final(v)@ == bumped(old(v)@, id, now),
{
    match hosts::find_usage(v, id) {
        Some(i) => {
            let count: u32 = v[i].usage.count;
            let more: u32 = if count == u32::MAX {
                u32::MAX
            } else {
                count + 1
            };
            v.set(i, HostUsage { id, usage: Usage { count: more, last_used: now } });
        },
        None => {
            v.push(HostUsage { id, usage: Usage { count: 1, last_used: now } });
        },
    }
}

impl Tty7App {
    /// What a connect to `profile` is described by.
    pub fn native_ssh_spec_for_profile(
        &self,
        profile: &SshProfile,
        store: &InMemoryCredentialStore,
    ) -> (r: NativeSshSpec)
        ensures
            ssh_connect::describes_chain(
                r,
                *profile,
                self.config.ssh_profiles@,
                *store,
                self.config.verify_host_keys,
                set![profile.id],
            ),
    {
        ssh_connect::build_native_ssh_spec(
            profile,
            self.config.ssh_profiles.as_slice(),
            store,
            self.config.verify_host_keys,
        )
    }

    /// A host is used once more.
    pub fn bump_ssh_frecency(&mut self, id: u128, now: u64)
        ensures
            *final(self) == (Tty7App {
                ssh_profile_frecency: final(self).ssh_profile_frecency,
                ..*old(self)
            }),
            final(self).ssh_profile_frecency@ == bumped(
                old(self).ssh_profile_frecency@,
                id,
                now,
            ),
    {
        bump(&mut self.ssh_profile_frecency, id, now);
    }

    /// Connect to a saved host: what the connect is described by. Nothing
    /// happens when there is no such host.
    pub fn connect_ssh_profile(
        &mut self,
        id: u128,
        store: &InMemoryCredentialStore,
        now: u64,
    ) -> (r: Option<Box<NativeSshSpec>>)
        ensures
            match ssh_connect::place_of_id(old(self).config.ssh_profiles@, id) {
                None => r is None && *final(self) == *old(self),
                Some(i) => {
                    &&& r matches Some(spec)
                    &&& ssh_connect::describes_chain(
                        *spec,
                        old(self).config.ssh_profiles@[i],
                        old(self).config.ssh_profiles@,
                        *store,
                        old(self).config.verify_host_keys,
                        set![id],
                    )
                    &&& *final(self) == (Tty7App {
                        ssh_profile_frecency: final(self).ssh_profile_frecency,
                        ..*old(self)
                    })
                    &&& final(self).ssh_profile_frecency@ == bumped(
                        old(self).ssh_profile_frecency@,
                        id,
                        now,
                    )
                },
            },
    {
        match ssh_connect::find_profile(self.config.ssh_profiles.as_slice(), id) {
            None => None,
            Some(i) => {
                self.bump_ssh_frecency(id, now);
                Some(
                    Box::new(
                        self.native_ssh_spec_for_profile(&self.config.ssh_profiles[i], store),
                    ),
                )
            },
        }
    }

    /// Connect to what was typed: an alias of the configuration with the user
    /// and the port that were typed, else the host itself.
    pub fn quick_connect(
        &self,
        qc: QuickConnect,
        store: &InMemoryCredentialStore,
        aliases: &AliasResolver,
    ) -> (r: NativeSshSpec)
        ensures
            ssh_connect::describes_quick_connect(
                r,
                qc@,
                *store,
                self.config.verify_host_keys,
                *aliases,
            ),
    {
        ssh_connect::quick_connect_spec(
            qc,
            self.config.ssh_profiles.as_slice(),
            store,
            self.config.verify_host_keys,
            aliases,
        )
    }

    /// Connect a pane again whose connection is gone: from the profile as it
    /// is now, or as it was when the profile is gone. A pane that is connected
    /// is left alone.
    pub fn restart_ssh_session(&self, pane: Option<SshPane>, store: &InMemoryCredentialStore) -> (r:
        Option<Box<NativeSshSpec>>)
        ensures
            match pane {
                Some(p) => if !p.disconnected || p.spec is None {
                    r is None
                } else {
                    &&& r matches Some(spec)
                    &&& match ssh_connect::persisted_place(
                        *p.spec->0,
                        self.config.ssh_profiles@,
                    ) {
                        Some(i) => ssh_connect::describes_chain(
                            *spec,
                            self.config.ssh_profiles@[i],
                            self.config.ssh_profiles@,
                            *store,
                            self.config.verify_host_keys,
                            set![self.config.ssh_profiles@[i].id],
                        ),
                        None => spec == p.spec->0,
                    }
                },
                None => r is None,
            },
    {
        match pane {
            None => None,
            Some(p) => {
                if !p.disconnected {
                    return None;
                }
                match p.spec {
                    None => None,
                    Some(spec) => Some(
                        ssh_connect::resolve_persisted_ssh_spec(
                            spec,
                            self.config.ssh_profiles.as_slice(),
                            store,
                            self.config.verify_host_keys,
                        ),
                    ),
                }
            },
        }
    }
}

proof fn lemma_usage_after(v: Seq<HostUsage>, id: u128, other: u128, x: HostUsage, at: int)
    requires
        0 <= at < v.len(),
        v[at].id == id,
        x.id == id,
    ensures
        hosts::usage_place(v.update(at, x), other) == hosts::usage_place(v, other),
    decreases v.len(),
{
    let w = v.update(at, x);
    if at < v.len() - 1 {
        lemma_usage_after(v.drop_last(), id, other, x, at);
        assert(w.drop_last() =~= v.drop_last().update(at, x));
    } else {
        assert(w.drop_last() =~= v.drop_last());
    }
}

proof fn lemma_usage_place(v: Seq<HostUsage>, id: u128)
    ensures
        hosts::usage_place(v, id) matches Some(i) ==> 0 <= i < v.len() && v[i].id == id,
    decreases v.len(),
{
    if v.len() > 0 {
        lemma_usage_place(v.drop_last(), id);
    }
}

/// A connect counts for the host it goes to, and for no other.
pub proof fn a_connect_counts_for_its_host_alone(
    v: Seq<HostUsage>,
    id: u128,
    now: u64,
    other: u128,
)
    requires
        now > 0,
    ensures
        hosts::last_used(bumped(v, id, now), id) == Some(now),
        other != id ==> hosts::last_used(bumped(v, id, now), other) == hosts::last_used(v, other),
{
    lemma_usage_place(v, id);
    lemma_usage_place(v, other);
    let b = bumped(v, id, now);
    match hosts::usage_place(v, id) {
        Some(i) => {
            lemma_usage_after(v, id, id, b[i], i);
            lemma_usage_after(v, id, other, b[i], i);
        },
        None => {
            assert(b.drop_last() =~= v);
        },
    }
}

/// A connect adds one to what is counted for its host, as long as the count
/// can grow, or starts the count at one; nothing else that is kept changes.
pub proof fn a_connect_counts_once(v: Seq<HostUsage>, id: u128, now: u64, i: int)
    ensures
        0 <= i < v.len() && v[i].id != id ==> bumped(v, id, now)[i] == v[i],
        0 <= i < v.len() && v[i].id == id && (forall|k: int|
            0 <= k < i ==> (#[trigger] v[k]).id != id) ==> {
            &&& bumped(v, id, now).len() == v.len()
            &&& bumped(v, id, now)[i].id == id
            &&& bumped(v, id, now)[i].usage.last_used == now
            &&& v[i].usage.count < u32::MAX ==> bumped(v, id, now)[i].usage.count
                == v[i].usage.count + 1
            &&& v[i].usage.count == u32::MAX ==> bumped(v, id, now)[i].usage.count == u32::MAX
        },
        (forall|k: int| 0 <= k < v.len() ==> (#[trigger] v[k]).id != id) ==> {
            &&& bumped(v, id, now).len() == v.len() + 1
            &&& bumped(v, id, now).last().id == id
            &&& bumped(v, id, now).last().usage.count == 1
            &&& bumped(v, id, now).last().usage.last_used == now
        },
{
    lemma_usage_place(v, id);
    lemma_first_usage(v, id);
}

proof fn lemma_first_usage(v: Seq<HostUsage>, id: u128)
    ensures
        match hosts::usage_place(v, id) {
            Some(i) => forall|k: int| 0 <= k < i ==> (#[trigger] v[k]).id != id,
            None => forall|k: int| 0 <= k < v.len() ==> (#[trigger] v[k]).id != id,
        },
    decreases v.len(),
{
    if v.len() > 0 {
        lemma_first_usage(v.drop_last(), id);
        lemma_usage_place(v.drop_last(), id);
        assert(forall|k: int| 0 <= k < v.len() - 1 ==> v.drop_last()[k] == #[trigger] v[k]);
    }
}

} // verus!
