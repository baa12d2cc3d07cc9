//! Writing down what a prompt was told to remember.

use vstd::prelude::*;
use vstd::string::*;
use crate::ssh_profile;
use crate::ssh_profile::{InMemoryCredentialStore, KeyFile, PassphraseEntry, PasswordEntry};
use crate::ssh_prompt::KeychainWrite;
use crate::text;

verus! {

pub open spec fn is_for(e: PasswordEntry, user: Seq<char>, host: Seq<char>, port: u16) -> bool {
    e.user@ == user && e.host@ == host && e.port == port
}

/// The entries for other accounts.
pub open spec fn without(
    entries: Seq<PasswordEntry>,
    user: Seq<char>,
    host: Seq<char>,
    port: u16,
) -> Seq<PasswordEntry>
    decreases entries.len(),
{
    if entries.len() == 0 {
        Seq::empty()
    } else if is_for(entries.last(), user, host, port) {
        without(entries.drop_last(), user, host, port)
    } else {
        without(entries.drop_last(), user, host, port).push(entries.last())
    }
}

proof fn lemma_without(
    entries: Seq<PasswordEntry>,
    user: Seq<char>,
    host: Seq<char>,
    port: u16,
    u: Seq<char>,
    h: Seq<char>,
    p: u16,
)
    ensures
        ssh_profile::password_in(without(entries, user, host, port), u, h, p) == (if u == user && h
            == host && p == port {
            None
        } else {
            ssh_profile::password_in(entries, u, h, p)
        }),
    decreases entries.len(),
{
    if entries.len() > 0 {
        lemma_without(entries.drop_last(), user, host, port, u, h, p);
        let front = without(entries.drop_last(), user, host, port);
        if !is_for(entries.last(), user, host, port) {
            assert(front.push(entries.last()).drop_last() =~= front);
        }
    }
}

proof fn lemma_passphrase_behind(
    e: PassphraseEntry,
    entries: Seq<PassphraseEntry>,
    account: Seq<char>,
)
    ensures
        ssh_profile::passphrase_in(seq![e] + entries, account) == (if e.account@ == account {
            Some(e.secret)
        } else {
            ssh_profile::passphrase_in(entries, account)
        }),
    decreases entries.len(),
{
    let all = seq![e] + entries;
    if entries.len() == 0 {
        assert(all.drop_last() =~= entries);
        assert(all.last() == e);
    } else {
        lemma_passphrase_behind(e, entries.drop_last(), account);
        assert(all.drop_last() =~= seq![e] + entries.drop_last());
        assert(all.last() == entries.last());
    }
}

/// What `write` does to the credentials: a password is remembered or
/// forgotten for one account, a passphrase is remembered for the key that the
/// file holds, and not at all when the file cannot be read.
pub open spec fn writes(
    s: InMemoryCredentialStore,
    write: KeychainWrite,
    t: InMemoryCredentialStore,
) -> bool {
    &&& t.key_files == s.key_files
    &&& t.default_identities == s.default_identities
    &&& t.home == s.home
    &&& match write {
        KeychainWrite::Keep => t == s,
        KeychainWrite::SetPassword { user, host, port, secret } => {
            &&& t.passphrases == s.passphrases
            &&& t.password(user@, host@, port) matches Some(x) && x@ == secret@
            &&& forall|u: Seq<char>, h: Seq<char>, p: u16|
                !(u == user@ && h == host@ && p == port) ==> #[trigger] t.password(u, h, p)
                    == s.password(u, h, p)
        },
        KeychainWrite::DeletePassword { user, host, port } => {
            &&& t.passphrases == s.passphrases
            &&& t.password(user@, host@, port) is None
            &&& forall|u: Seq<char>, h: Seq<char>, p: u16|
                !(u == user@ && h == host@ && p == port) ==> #[trigger] t.password(u, h, p)
                    == s.password(u, h, p)
        },
        KeychainWrite::SetKeyPassphrase { key_path, secret } => match ssh_profile::account_in(
            s.key_files@,
            ssh_profile::tilde_expanded(key_path@, s.home@),
        ) {
            None => t == s,
            Some(account) => {
                &&& t.passwords == s.passwords
                &&& ssh_profile::passphrase_in(t.passphrases@, account) matches Some(x) && x@
                    == secret@
                &&& forall|a: Seq<char>|
                    a != account ==> #[trigger] ssh_profile::passphrase_in(t.passphrases@, a)
                        == ssh_profile::passphrase_in(s.passphrases@, a)
            },
        },
    }
}

impl InMemoryCredentialStore {
    /// Forget a password.
    pub fn delete_password(&mut self, user: &str, host: &str, port: u16)
        ensures
            final(self).passwords@ == without(old(self).passwords@, user@, host@, port),
            *final(self) == (InMemoryCredentialStore {
                passwords: final(self).passwords,
                ..*old(self)
            }),
            final(self).password(user@, host@, port) is None,
            forall|u: Seq<char>, h: Seq<char>, p: u16|
                !(u == user@ && h == host@ && p == port) ==> #[trigger] final(self).password(u, h, p)
                    == old(self).password(u, h, p),
    {
        let ghost before = self.passwords@;
        let mut kept: Vec<PasswordEntry> = Vec::new();
        let mut i: usize = 0;
        assert(before.take(0) =~= Seq::<PasswordEntry>::empty());
        while i < self.passwords.len()
            invariant
                i <= self.passwords@.len(),
                before == self.passwords@,
                kept@ == without(before.take(i as int), user@, host@, port),
            decreases self.passwords@.len() - i,
        {
            assert(before.take(i + 1).drop_last() =~= before.take(i as int));
            let e = &self.passwords[i];
            let same: bool = e.port == port && text::same(e.user.as_str(), user) && text::same(
                e.host.as_str(),
                host,
            );
            if !same {
                kept.push(
                    PasswordEntry {
                        user: e.user.clone(),
                        host: e.host.clone(),
                        port: e.port,
                        secret: e.secret.clone(),
                    },
                );
            }
            i = i + 1;
        }
        assert(before.take(before.len() as int) =~= before);
        self.passwords = kept;
        proof {
            lemma_without(before, user@, host@, port, user@, host@, port);
            assert forall|u: Seq<char>, h: Seq<char>, p: u16|
                !(u == user@ && h == host@ && p == port) implies #[trigger] ssh_profile::password_in(
                self.passwords@,
                u,
                h,
                p,
            ) == ssh_profile::password_in(before, u, h, p) by {
                lemma_without(before, user@, host@, port, u, h, p);
            }
        }
    }

    /// Remember the passphrase of a key, in place of one remembered for it.
    pub fn set_key_passphrase(&mut self, account: &str, secret: &str)
        ensures
            *final(self) == (InMemoryCredentialStore {
                passphrases: final(self).passphrases,
                ..*old(self)
            }),
            ssh_profile::passphrase_in(final(self).passphrases@, account@) matches Some(x) && x@
                == secret@,
            forall|a: Seq<char>|
                a != account@ ==> #[trigger] ssh_profile::passphrase_in(
                    final(self).passphrases@,
                    a,
                ) == ssh_profile::passphrase_in(old(self).passphrases@, a),
    {
        let ghost before = self.passphrases@;
        let entry = PassphraseEntry { account: text::owned(account), secret: text::owned(secret) };
        self.passphrases.insert(0, entry);
        proof {
            assert(self.passphrases@ =~= seq![entry] + before);
            lemma_passphrase_behind(entry, before, account@);
            assert forall|a: Seq<char>|
                a != account@ implies #[trigger] ssh_profile::passphrase_in(self.passphrases@, a)
                == ssh_profile::passphrase_in(before, a) by {
                lemma_passphrase_behind(entry, before, a);
            }
        }
    }

    fn account_of(&self, path: &str) -> (r: Option<String>)
        ensures
            text::option_text(r) == ssh_profile::account_in(self.key_files@, path@),
    {
        let ghost files = self.key_files@;
        let mut found: Option<usize> = None;
        let mut i: usize = 0;
        assert(files.take(0) =~= Seq::<KeyFile>::empty());
        while i < self.key_files.len()
            invariant
                i <= files.len(),
                files == self.key_files@,
                match found {
                    Some(k) => k < i && ssh_profile::account_in(files.take(i as int), path@)
                        == Some(files[k as int].account@),
                    None => ssh_profile::account_in(files.take(i as int), path@) is None,
                },
            decreases files.len() - i,
        {
            assert(files.take(i + 1).drop_last() =~= files.take(i as int));
            if found.is_none() && text::same(self.key_files[i].path.as_str(), path) {
                found = Some(i);
            }
            i = i + 1;
        }
        assert(files.take(files.len() as int) =~= files);
        match found {
            Some(k) => Some(self.key_files[k].account.clone()),
            None => None,
        }
    }

    /// Write down what a prompt was told to remember or to forget.
    pub fn apply_keychain_write(&mut self, write: KeychainWrite)
        ensures
            writes(*old(self), write, *final(self)),
    {
        match write {
            KeychainWrite::Keep => {},
            KeychainWrite::SetPassword { user, host, port, secret } => {
                self.set_password(user.as_str(), host.as_str(), port, secret.as_str());
            },
            KeychainWrite::DeletePassword { user, host, port } => {
                self.delete_password(user.as_str(), host.as_str(), port);
            },
            KeychainWrite::SetKeyPassphrase { key_path, secret } => {
                let path = ssh_profile::expand_tilde(key_path.as_str(), self.home.as_str());
                match self.account_of(path.as_str()) {
                    Some(account) => {
                        self.set_key_passphrase(account.as_str(), secret.as_str());
                    },
                    None => {},
                }
            },
        }
    }
}

/// A password that was remembered is the one the next connect to the same
/// account finds, and one that was forgotten is not found again.
pub proof fn what_is_remembered_is_found_again(
    s: InMemoryCredentialStore,
    write: KeychainWrite,
    t: InMemoryCredentialStore,
)
    requires
        writes(s, write, t),
    ensures
        write matches KeychainWrite::SetPassword { user, host, port, secret } ==> (t.password(
            user@,
            host@,
            port,
        ) matches Some(x) && x@ == secret@),
        write matches KeychainWrite::DeletePassword { user, host, port } ==> t.password(
            user@,
            host@,
            port,
        ) is None,
        write matches KeychainWrite::SetKeyPassphrase { key_path, secret } ==> ({
            let path = ssh_profile::tilde_expanded(key_path@, s.home@);
            ssh_profile::account_in(s.key_files@, path) is Some ==> (t.passphrase_at(
                path,
            ) matches Some(x) && x@ == secret@)
        }),
{
}

/// A write touches what it names and nothing else: the passwords of other
/// accounts and the passphrases of other keys stay, and the files and the
/// home directory always do. Where nothing is to be written, nothing changes.
pub proof fn a_write_touches_what_it_names(
    s: InMemoryCredentialStore,
    write: KeychainWrite,
    t: InMemoryCredentialStore,
    user: Seq<char>,
    host: Seq<char>,
    port: u16,
    account: Seq<char>,
)
    requires
        writes(s, write, t),
    ensures
        t.key_files == s.key_files && t.default_identities == s.default_identities && t.home
            == s.home,
        write is Keep ==> t == s,
        write is SetPassword && !(write->SetPassword_user@ == user && write->SetPassword_host@
            == host && write->SetPassword_port == port) ==> t.password(user, host, port)
            == s.password(user, host, port),
        write is DeletePassword && !(write->DeletePassword_user@ == user
            && write->DeletePassword_host@ == host && write->DeletePassword_port == port)
            ==> t.password(user, host, port) == s.password(user, host, port),
        write is SetPassword || write is DeletePassword ==> ssh_profile::passphrase_in(
            t.passphrases@,
            account,
        ) == ssh_profile::passphrase_in(s.passphrases@, account),
        write is SetKeyPassphrase ==> t.password(user, host, port) == s.password(user, host, port),
        write is SetKeyPassphrase && ssh_profile::account_in(
            s.key_files@,
            ssh_profile::tilde_expanded(write->key_path@, s.home@),
        ) != Some(account) ==> ssh_profile::passphrase_in(t.passphrases@, account)
            == ssh_profile::passphrase_in(s.passphrases@, account),
{
    if write is SetPassword {
        assert(t.password(user, host, port) == t.password(user, host, port));
    }
}

/// A password is taken out for one account, and only for that one.
pub proof fn only_one_account_is_forgotten(
    entries: Seq<PasswordEntry>,
    user: Seq<char>,
    host: Seq<char>,
    port: u16,
)
    ensures
        without(entries, user, host, port) == entries.filter(
            |e: PasswordEntry| !(e.user@ == user && e.host@ == host && e.port == port),
        ),
    decreases entries.len(),
{
    reveal(Seq::filter);
    if entries.len() > 0 {
        only_one_account_is_forgotten(entries.drop_last(), user, host, port);
    }
}

} // verus!
