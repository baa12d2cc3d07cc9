//! Which hosts of the SSH configuration a connect may come across: the
//! configuration is asked for one alias at a time, and each answer may name
//! more.

use vstd::prelude::*;
use vstd::string::*;
use crate::ssh_connect;
use crate::ssh_connect::{AliasEntry, AliasResolver};
use crate::ssh_profile::SshProfile;
use crate::text;

verus! {

/// A search for the aliases behind a host.
#[derive(Debug)]
pub struct AliasSearch {
    /// The host the connect goes to.
    pub host: String,
    /// The aliases the configuration was asked for.
    pub asked: Vec<String>,
    /// The aliases it is still to be asked for.
    pub wanted: Vec<String>,
    /// What it answered.
    pub table: AliasResolver,
}

/// The hops an entry asks for.
pub open spec fn hops_behind(e: AliasEntry) -> Seq<Seq<char>> {
    match e.proxy_jump {
        Some(raw) => ssh_connect::hops_of(raw@),
        None => Seq::empty(),
    }
}

impl AliasSearch {
    /// Whether the configuration was asked for an alias, or is going to be.
    pub open spec fn comes_to(&self, alias: Seq<char>) -> bool {
        text::views(self.asked@).contains(alias) || text::views(self.wanted@).contains(alias)
    }

    /// The search comes to its host, and to every hop that an answer names.
    pub open spec fn wf(&self) -> bool {
        &&& self.comes_to(self.host@)
        &&& forall|i: int, k: int|
            #![trigger hops_behind(self.table.entries@[i])[k]]
            0 <= i < self.table.entries@.len() && 0 <= k < hops_behind(
                self.table.entries@[i],
            ).len() ==> self.comes_to(hops_behind(self.table.entries@[i])[k])
    }

    pub fn new(host: &str) -> (r: AliasSearch)
        ensures
            r.wf(),
            r.host@ == host@,
            r.asked@.len() == 0,
            r.table.entries@.len() == 0,
            text::views(r.wanted@) == seq![host@],
    {
        let mut wanted: Vec<String> = Vec::new();
        wanted.push(text::owned(host));
        assert(text::views(wanted@) =~= seq![host@]);
        let r = AliasSearch {
            host: text::owned(host),
            asked: Vec::new(),
            wanted,
            table: AliasResolver { entries: Vec::new() },
        };
        assert(text::views(r.wanted@)[0] == host@);
        r
    }

    /// The alias to ask for next. No alias is asked for twice; with none left
    /// the search is over.
    pub fn next_alias(&mut self) -> (r: Option<String>)
        ensures
            old(self).wf() ==> final(self).wf(),
            final(self).host == old(self).host,
            final(self).table == old(self).table,
            forall|a: Seq<char>| #[trigger] final(self).comes_to(a) == old(self).comes_to(a),
            match r {
                Some(a) => {
                    &&& text::views(old(self).wanted@).contains(a@)
                    &&& !text::views(old(self).asked@).contains(a@)
                    &&& text::views(final(self).asked@) == text::views(old(self).asked@).push(a@)
                },
                None => final(self).wanted@.len() == 0 && final(self).asked == old(self).asked
                    && forall|a: Seq<char>|
                    #[trigger] text::views(old(self).wanted@).contains(a) ==> text::views(
                        old(self).asked@,
                    ).contains(a),
            },
    {
        while self.wanted.len() > 0
            invariant
                self.host == old(self).host,
                self.table == old(self).table,
                self.asked == old(self).asked,
                forall|a: Seq<char>| #[trigger] self.comes_to(a) == old(self).comes_to(a),
                forall|a: Seq<char>|
                    #[trigger] text::views(self.wanted@).contains(a) ==> text::views(
                        old(self).wanted@,
                    ).contains(a),
                forall|a: Seq<char>|
                    #[trigger] text::views(old(self).wanted@).contains(a) ==> text::views(
                        self.wanted@,
                    ).contains(a) || text::views(self.asked@).contains(a),
            decreases self.wanted@.len(),
        {
            let ghost was = *self;
            match self.wanted.pop() {
                Some(a) => {
                    proof {
                        lemma_popped(was.wanted@, self.wanted@, a);
                    }
                    if !text::has_text(&self.asked, a.as_str()) {
                        let name = a.clone();
                        self.asked.push(name);
                        proof {
                            lemma_pushed(was.asked@, self.asked@, a);
                            assert forall|b: Seq<char>| #[trigger]
                                self.comes_to(b) == old(self).comes_to(b) by {
                                assert(was.comes_to(b) == old(self).comes_to(b));
                            }
                            lemma_same_reach(*old(self), *self);
                            assert(text::views(was.wanted@).contains(a@));
                        }
                        return Some(a);
                    }
                    proof {
                        assert forall|b: Seq<char>| #[trigger]
                            self.comes_to(b) == old(self).comes_to(b) by {
                            assert(was.comes_to(b) == old(self).comes_to(b));
                        }
                        assert forall|b: Seq<char>| #[trigger]
                            text::views(self.wanted@).contains(b) implies text::views(
                            old(self).wanted@,
                        ).contains(b) by {
                            assert(text::views(was.wanted@).contains(b));
                        }
                    }
                },
                None => {},
            }
        }
        proof {
            lemma_same_reach(*old(self), *self);
            assert forall|a: Seq<char>| #[trigger]
                text::views(old(self).wanted@).contains(a) implies text::views(
                old(self).asked@,
            ).contains(a) by {
                assert(text::views(self.wanted@).len() == 0);
            }
        }
        None
    }

    /// What the configuration answered for an alias: its profile and the jump
    /// hosts it asks for, or nothing.
    pub fn answer(&mut self, alias: String, found: Option<(SshProfile, Option<String>)>)
        ensures
            old(self).wf() ==> final(self).wf(),
            final(self).host == old(self).host,
            final(self).asked == old(self).asked,
            match found {
                Some((profile, proxy_jump)) => {
                    let e = AliasEntry { alias, profile, proxy_jump };
                    &&& final(self).table.entries@ == old(self).table.entries@.push(e)
                    &&& text::views(final(self).wanted@) == text::views(old(self).wanted@)
                        + hops_behind(e)
                },
                None => final(self).table == old(self).table && final(self).wanted
                    == old(self).wanted,
            },
    {
        if let Some((profile, proxy_jump)) = found {
            let ghost was = *self;
            let ghost e = AliasEntry { alias, profile, proxy_jump };
            if let Some(raw) = &proxy_jump {
                let mut hops = ssh_connect::jump_hops(raw.as_str());
                let ghost named = text::views(hops@);
                let ghost listed = hops@;
                self.wanted.append(&mut hops);
                assert(self.wanted@ =~= was.wanted@ + listed);
                assert(text::views(self.wanted@) =~= text::views(was.wanted@) + named);
            } else {
                assert(text::views(self.wanted@) =~= text::views(was.wanted@) + hops_behind(e));
            }
            self.table.entries.push(AliasEntry { alias, profile, proxy_jump });
            proof {
                let before = text::views(was.wanted@);
                let after = text::views(self.wanted@);
                assert(after =~= before + hops_behind(e));
                assert forall|a: Seq<char>| #[trigger] was.comes_to(a) implies self.comes_to(a) by {
                    if before.contains(a) {
                        let w = choose|w: int| 0 <= w < before.len() && before[w] == a;
                        assert(after[w] == a);
                    }
                }
                assert(was.wf() ==> was.comes_to(was.host@));
                assert forall|i: int, k: int|
                    #![trigger hops_behind(self.table.entries@[i])[k]]
                    was.wf() && 0 <= i < self.table.entries@.len() && 0 <= k < hops_behind(
                        self.table.entries@[i],
                    ).len() implies self.comes_to(hops_behind(self.table.entries@[i])[k]) by {
                    if i < was.table.entries@.len() {
                        assert(self.table.entries@[i] == was.table.entries@[i]);
                        assert(was.comes_to(hops_behind(was.table.entries@[i])[k]));
                    } else {
                        assert(after[before.len() + k] == hops_behind(e)[k]);
                    }
                }
            }
        }
    }
}

proof fn lemma_popped(before: Seq<String>, after: Seq<String>, a: String)
    requires
        before.len() > 0,
        a == before.last(),
        after == before.drop_last(),
    ensures
        text::views(before).contains(a@),
        forall|b: Seq<char>|
            #[trigger] text::views(before).contains(b) == (text::views(after).contains(b) || b == a@),
{
    lemma_pushed(after, before, a);
    assert(before =~= after.push(a));
}

proof fn lemma_pushed(before: Seq<String>, after: Seq<String>, a: String)
    requires
        after =~= before.push(a),
    ensures
        text::views(after) == text::views(before).push(a@),
        text::views(after).contains(a@),
        forall|b: Seq<char>|
            #[trigger] text::views(after).contains(b) == (text::views(before).contains(b) || b == a@),
{
    let p = text::views(before);
    let q = text::views(after);
    assert(q =~= p.push(a@));
    assert(q[p.len() as int] == a@);
    assert forall|b: Seq<char>| #[trigger] q.contains(b) == (p.contains(b) || b == a@) by {
        if p.contains(b) {
            let w = choose|w: int| 0 <= w < p.len() && p[w] == b;
            assert(q[w] == b);
        }
        if q.contains(b) {
            let w = choose|w: int| 0 <= w < q.len() && q[w] == b;
            if w < p.len() {
                assert(p[w] == b);
            }
        }
    }
}

proof fn lemma_same_reach(a: AliasSearch, b: AliasSearch)
    requires
        b.host == a.host,
        b.table == a.table,
        forall|n: Seq<char>| #[trigger] b.comes_to(n) == a.comes_to(n),
    ensures
        a.wf() ==> b.wf(),
{
    assert(b.comes_to(b.host@) == a.comes_to(a.host@));
    assert forall|i: int, k: int|
        #![trigger hops_behind(b.table.entries@[i])[k]]
        a.wf() && 0 <= i < b.table.entries@.len() && 0 <= k < hops_behind(
            b.table.entries@[i],
        ).len() implies b.comes_to(hops_behind(b.table.entries@[i])[k]) by {
        assert(a.comes_to(hops_behind(a.table.entries@[i])[k]));
    }
}

/// A search that is over missed nothing: the configuration was asked for the
/// host, and for every hop that any answer named.
pub proof fn a_finished_search_missed_nothing(s: AliasSearch)
    requires
        s.wf(),
        s.wanted@.len() == 0,
    ensures
        text::views(s.asked@).contains(s.host@),
        forall|i: int, k: int|
            #![trigger hops_behind(s.table.entries@[i])[k]]
            0 <= i < s.table.entries@.len() && 0 <= k < hops_behind(s.table.entries@[i]).len()
                ==> text::views(s.asked@).contains(hops_behind(s.table.entries@[i])[k]),
{
    assert(s.comes_to(s.host@));
    assert(text::views(s.wanted@).len() == 0);
}

} // verus!
