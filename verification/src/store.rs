//! In-memory snapshot stores with the persistence collaborator's interface:
//! find / find-all / upsert / delete keyed by (user, guild) for birthdays,
//! and per-guild announcement-channel configuration. Keys are unique and
//! every stored birthday is well-formed; both invariants are established by
//! the constructors and preserved by every method.

use vstd::prelude::*;

use crate::birthday::Birthday;
use crate::model::{records_well_formed, GuildAnnouncementConfig, MemberRecord};

verus! {

/// Holds one birthday record per (user, guild) pair.
pub struct MemberStore {
    records: Vec<MemberRecord>,
}

impl MemberStore {
    /// The stored records, in insertion order.
    pub closed spec fn view(&self) -> Seq<MemberRecord> {
        self.records@
    }

    /// Keys are unique and every stored birthday is well-formed.
    pub open spec fn inv(&self) -> bool {
        &&& records_well_formed(self.view())
        &&& forall|i: int, j: int|
            0 <= i < j < self.view().len() ==> !((#[trigger] self.view()[i]).user_id == (
            #[trigger] self.view()[j]).user_id && self.view()[i].guild_id
                == self.view()[j].guild_id)
    }

    /// An empty store.
    pub fn new() -> (r: MemberStore)
        ensures
            r.inv(),
            r.view() == Seq::<MemberRecord>::empty(),
    {
        let r = MemberStore { records: Vec::new() };
        proof {
            assert(r.view() =~= Seq::<MemberRecord>::empty());
        }
        r
    }

    /// Whether a record for the pair is stored.
    pub open spec fn contains_key(&self, user_id: u64, guild_id: u64) -> bool {
        exists|i: int|
            0 <= i < self.view().len() && (#[trigger] self.view()[i]).user_id == user_id
                && self.view()[i].guild_id == guild_id
    }

    /// The stored birthday of the pair, if any.
    pub fn find(&self, user_id: u64, guild_id: u64) -> (r: Option<Birthday>)
        requires
            self.inv(),
        ensures
            r is Some <==> self.contains_key(user_id, guild_id),
            forall|i: int|
                0 <= i < self.view().len() && (#[trigger] self.view()[i]).user_id == user_id
                    && self.view()[i].guild_id == guild_id ==> r == Some(self.view()[i].birthday),
    {
        let mut i: usize = 0;
        while i < self.records.len()
            invariant
                self.inv(),
                i <= self.view().len(),
                forall|j: int|
                    0 <= j < i ==> !((#[trigger] self.view()[j]).user_id == user_id
                        && self.view()[j].guild_id == guild_id),
            decreases self.view().len() - i,
        {
            let rec = self.records[i];
            if rec.user_id == user_id && rec.guild_id == guild_id {
                proof {
                    assert forall|j: int|
                        0 <= j < self.view().len() && (#[trigger] self.view()[j]).user_id == user_id
                            && self.view()[j].guild_id == guild_id implies self.view()[j].birthday
                        == rec.birthday by {
                        if j > i as int {
                            assert(!(self.view()[i as int].user_id == self.view()[j].user_id
                                && self.view()[i as int].guild_id == self.view()[j].guild_id));
                        }
                    }
                }
                return Some(rec.birthday);
            }
            i = i + 1;
        }
        None
    }

    /// Inserts the record, replacing any record of the same pair. The store
    /// afterward holds `rec` and is otherwise unchanged: either one existing
    /// position was overwritten, or the record was appended.
    pub fn upsert(&mut self, rec: MemberRecord)
        requires
            old(self).inv(),
            rec.birthday.well_formed(),
        ensures
            final(self).inv(),
            final(self).contains_key(rec.user_id, rec.guild_id),
            (exists|i: int|
                0 <= i < old(self).view().len() && (#[trigger] old(self).view()[i]).user_id
                    == rec.user_id && old(self).view()[i].guild_id == rec.guild_id
                    && final(self).view() == old(self).view().update(i, rec)) || (!old(
                self,
            ).contains_key(rec.user_id, rec.guild_id) && final(self).view() == old(
                self,
            ).view().push(rec)),
    {
        let mut i: usize = 0;
        while i < self.records.len()
            invariant
                self == old(self),
                old(self).inv(),
                rec.birthday.well_formed(),
                i <= self.view().len(),
                forall|j: int|
                    0 <= j < i ==> !((#[trigger] self.view()[j]).user_id == rec.user_id
                        && self.view()[j].guild_id == rec.guild_id),
            decreases self.view().len() - i,
        {
            let stored = self.records[i];
            if stored.user_id == rec.user_id && stored.guild_id == rec.guild_id {
                self.records.set(i, rec);
                proof {
                    let ov = old(self).view();
                    let nv = self.view();
                    assert(nv == ov.update(i as int, rec));
                    assert(nv[i as int].user_id == rec.user_id && nv[i as int].guild_id
                        == rec.guild_id);
                    assert forall|a: int, b: int| 0 <= a < b < nv.len() implies !((
                    #[trigger] nv[a]).user_id == (#[trigger] nv[b]).user_id && nv[a].guild_id
                        == nv[b].guild_id) by {
                        if a != i as int && b != i as int {
                            assert(nv[a] == ov[a] && nv[b] == ov[b]);
                        } else if a == i as int {
                            assert(nv[b] == ov[b]);
                            assert(ov[i as int].user_id == rec.user_id && ov[i as int].guild_id
                                == rec.guild_id);
                        } else {
                            assert(nv[a] == ov[a]);
                            assert(ov[i as int].user_id == rec.user_id && ov[i as int].guild_id
                                == rec.guild_id);
                        }
                    }
                    assert forall|k: int| 0 <= k < nv.len() implies (
                    #[trigger] nv[k]).birthday.well_formed() by {
                        if k != i as int {
                            assert(nv[k] == ov[k]);
                        }
                    }
                }
                return ;
            }
            i = i + 1;
        }
        self.records.push(rec);
        proof {
            let ov = old(self).view();
            let nv = self.view();
            assert(nv == ov.push(rec));
            assert(nv[ov.len() as int].user_id == rec.user_id && nv[ov.len() as int].guild_id
                == rec.guild_id);
            assert forall|a: int, b: int| 0 <= a < b < nv.len() implies !((#[trigger] nv[a]).user_id
                == (#[trigger] nv[b]).user_id && nv[a].guild_id == nv[b].guild_id) by {
                if b == ov.len() {
                    assert(nv[a] == ov[a]);
                } else {
                    assert(nv[a] == ov[a] && nv[b] == ov[b]);
                }
            }
            assert forall|k: int| 0 <= k < nv.len() implies (
            #[trigger] nv[k]).birthday.well_formed() by {
                if k != ov.len() {
                    assert(nv[k] == ov[k]);
                }
            }
        }
    }

    /// Removes the pair's record; reports whether one existed. Afterward the
    /// store holds exactly the records of other pairs, in their old order.
    pub fn delete(&mut self, user_id: u64, guild_id: u64) -> (r: bool)
        requires
            old(self).inv(),
        ensures
            final(self).inv(),
            r == old(self).contains_key(user_id, guild_id),
            final(self).view() == old(self).view().filter(
                |rec: MemberRecord| !(rec.user_id == user_id && rec.guild_id == guild_id),
            ),
    {
        let ghost keep = |rec: MemberRecord| !(rec.user_id == user_id && rec.guild_id == guild_id);
        let mut out: Vec<MemberRecord> = Vec::new();
        let mut found = false;
        let mut i: usize = 0;
        proof {
            assert(old(self).view().take(0).filter(keep) =~= Seq::<MemberRecord>::empty());
        }
        while i < self.records.len()
            invariant
                self == old(self),
                old(self).inv(),
                i <= self.view().len(),
                keep == (|rec: MemberRecord|
                    !(rec.user_id == user_id && rec.guild_id == guild_id)),
                out@ == self.view().take(i as int).filter(keep),
                found == exists|j: int|
                    0 <= j < i && (#[trigger] self.view()[j]).user_id == user_id
                        && self.view()[j].guild_id == guild_id,
            decreases self.view().len() - i,
        {
            let rec = self.records[i];
            if rec.user_id == user_id && rec.guild_id == guild_id {
                found = true;
            } else {
                out.push(rec);
            }
            proof {
                reveal(Seq::filter);
                assert(self.view().take(i + 1).drop_last() =~= self.view().take(i as int));
                assert(self.view().take(i + 1).last() == self.view()[i as int]);
            }
            i = i + 1;
        }
        proof {
            assert(self.view().take(self.view().len() as int) =~= self.view());
        }
        self.records = out;
        proof {
            let filtered = old(self).view().filter(keep);
            assert forall|i2: int, j2: int| 0 <= i2 < j2 < filtered.len() implies !((
            #[trigger] filtered[i2]).user_id == (#[trigger] filtered[j2]).user_id
                && filtered[i2].guild_id == filtered[j2].guild_id) by {
                lemma_filter_pair_distinct(old(self).view(), keep, i2, j2);
            }
            assert forall|i2: int| 0 <= i2 < filtered.len() implies (
            #[trigger] filtered[i2]).birthday.well_formed() by {
                lemma_filter_element_witness(old(self).view(), keep, i2);
            }
        }
        found
    }

    /// All stored records, optionally only those of one guild, in insertion
    /// order.
    pub fn find_all(&self, guild_filter: Option<u64>) -> (r: Vec<MemberRecord>)
        requires
            self.inv(),
        ensures
            guild_filter is None ==> r@ == self.view(),
            guild_filter matches Some(g) ==> r@ == self.view().filter(
                |rec: MemberRecord| rec.guild_id == g,
            ),
            records_well_formed(r@),
    {
        match guild_filter {
            Option::None => {
                let mut out: Vec<MemberRecord> = Vec::new();
                let mut i: usize = 0;
                while i < self.records.len()
                    invariant
                        self.inv(),
                        i <= self.view().len(),
                        out@ == self.view().take(i as int),
                    decreases self.view().len() - i,
                {
                    out.push(self.records[i]);
                    proof {
                        assert(self.view().take(i + 1) =~= self.view().take(i as int).push(
                            self.view()[i as int],
                        ));
                    }
                    i = i + 1;
                }
                proof {
                    assert(self.view().take(self.view().len() as int) =~= self.view());
                }
                out
            },
            Option::Some(g) => {
                let ghost pred = |rec: MemberRecord| rec.guild_id == g;
                let mut out: Vec<MemberRecord> = Vec::new();
                let mut i: usize = 0;
                proof {
                    assert(self.view().take(0).filter(pred) =~= Seq::<MemberRecord>::empty());
                }
                while i < self.records.len()
                    invariant
                        self.inv(),
                        i <= self.view().len(),
                        pred == (|rec: MemberRecord| rec.guild_id == g),
                        out@ == self.view().take(i as int).filter(pred),
                    decreases self.view().len() - i,
                {
                    let rec = self.records[i];
                    if rec.guild_id == g {
                        out.push(rec);
                    }
                    proof {
                        reveal(Seq::filter);
                        assert(self.view().take(i + 1).drop_last() =~= self.view().take(i as int));
                        assert(self.view().take(i + 1).last() == self.view()[i as int]);
                    }
                    i = i + 1;
                }
                proof {
                    assert(self.view().take(self.view().len() as int) =~= self.view());
                    let filtered = self.view().filter(pred);
                    assert forall|i2: int| 0 <= i2 < filtered.len() implies (
                    #[trigger] filtered[i2]).birthday.well_formed() by {
                        lemma_filter_element_witness(self.view(), pred, i2);
                    }
                }
                out
            },
        }
    }
}

/// Two positions of a filtered sequence come from two distinct positions of
/// the original, in order; so pairwise-distinct keys survive filtering.
proof fn lemma_filter_pair_distinct(
    s: Seq<MemberRecord>,
    pred: spec_fn(MemberRecord) -> bool,
    i: int,
    j: int,
)
    requires
        forall|a: int, b: int|
            0 <= a < b < s.len() ==> !((#[trigger] s[a]).user_id == (#[trigger] s[b]).user_id
                && s[a].guild_id == s[b].guild_id),
        0 <= i < j < s.filter(pred).len(),
    ensures
        !(s.filter(pred)[i].user_id == s.filter(pred)[j].user_id && s.filter(pred)[i].guild_id
            == s.filter(pred)[j].guild_id),
{
    lemma_filter_order(s, pred, i, j);
}

/// The filtered sequence keeps the original's relative order: any two
/// positions have witnesses in the original, in the same order.
proof fn lemma_filter_order(s: Seq<MemberRecord>, pred: spec_fn(MemberRecord) -> bool, i: int, j: int)
    requires
        0 <= i < j < s.filter(pred).len(),
    ensures
        exists|a: int, b: int|
            0 <= a < b < s.len() && s[a] == s.filter(pred)[i] && s[b] == s.filter(pred)[j],
    decreases s.len(),
{
    reveal(Seq::filter);
    let f = s.filter(pred);
    if s.len() > 0 {
        let prefix = s.drop_last();
        let fp = prefix.filter(pred);
        if pred(s.last()) {
            if j == f.len() - 1 {
                if i < fp.len() {
                    lemma_filter_element_witness(prefix, pred, i);
                    let a = choose|a: int|
                        0 <= a < prefix.len() && prefix[a] == fp[i] && prefix[a] == fp[i];
                    assert(s[a] == f[i]);
                    assert(s[s.len() - 1] == f[j]);
                }
            } else {
                lemma_filter_order(prefix, pred, i, j);
                let (a, b) = choose|a: int, b: int|
                    0 <= a < b < prefix.len() && prefix[a] == fp[i] && prefix[b] == fp[j];
                assert(s[a] == f[i] && s[b] == f[j]);
            }
        } else {
            lemma_filter_order(prefix, pred, i, j);
            let (a, b) = choose|a: int, b: int|
                0 <= a < b < prefix.len() && prefix[a] == fp[i] && prefix[b] == fp[j];
            assert(s[a] == f[i] && s[b] == f[j]);
        }
    }
}

/// Every element of the filtered sequence appears in the original.
proof fn lemma_filter_element_witness(
    s: Seq<MemberRecord>,
    pred: spec_fn(MemberRecord) -> bool,
    i: int,
)
    requires
        0 <= i < s.filter(pred).len(),
    ensures
        exists|a: int| 0 <= a < s.len() && s[a] == s.filter(pred)[i] && s[a] == s.filter(pred)[i],
    decreases s.len(),
{
    reveal(Seq::filter);
    let f = s.filter(pred);
    if s.len() > 0 {
        let prefix = s.drop_last();
        let fp = prefix.filter(pred);
        if pred(s.last()) && i == f.len() - 1 {
            assert(s[s.len() - 1] == f[i]);
        } else {
            lemma_filter_element_witness(prefix, pred, i);
            let a = choose|a: int| 0 <= a < prefix.len() && prefix[a] == fp[i] && prefix[a] == fp[i];
            assert(s[a] == f[i]);
        }
    }
}

/// Holds at most one announcement-channel configuration per guild.
pub struct GuildConfigStore {
    configs: Vec<GuildAnnouncementConfig>,
}

impl GuildConfigStore {
    /// The stored configurations, in insertion order.
    pub closed spec fn view(&self) -> Seq<GuildAnnouncementConfig> {
        self.configs@
    }

    /// Guild keys are unique.
    pub open spec fn inv(&self) -> bool {
        forall|i: int, j: int|
            0 <= i < j < self.view().len() ==> (#[trigger] self.view()[i]).guild_id != (
            #[trigger] self.view()[j]).guild_id
    }

    /// An empty store.
    pub fn new() -> (r: GuildConfigStore)
        ensures
            r.inv(),
            r.view() == Seq::<GuildAnnouncementConfig>::empty(),
    {
        let r = GuildConfigStore { configs: Vec::new() };
        proof {
            assert(r.view() =~= Seq::<GuildAnnouncementConfig>::empty());
        }
        r
    }

    /// Whether the guild has a stored configuration.
    pub open spec fn contains_guild(&self, guild_id: u64) -> bool {
        exists|i: int| 0 <= i < self.view().len() && (#[trigger] self.view()[i]).guild_id == guild_id
    }

    /// The guild's configured announcement channel: `None` when the guild
    /// has no configuration or a configuration without a channel.
    pub fn channel_for(&self, guild_id: u64) -> (r: Option<u64>)
        requires
            self.inv(),
        ensures
            !self.contains_guild(guild_id) ==> r is None,
            forall|i: int|
                0 <= i < self.view().len() && (#[trigger] self.view()[i]).guild_id == guild_id
                    ==> r == self.view()[i].channel_id,
    {
        let mut i: usize = 0;
        while i < self.configs.len()
            invariant
                self.inv(),
                i <= self.view().len(),
                forall|j: int| 0 <= j < i ==> (#[trigger] self.view()[j]).guild_id != guild_id,
            decreases self.view().len() - i,
        {
            let cfg = self.configs[i];
            if cfg.guild_id == guild_id {
                proof {
                    assert forall|j: int|
                        0 <= j < self.view().len() && (#[trigger] self.view()[j]).guild_id
                            == guild_id implies self.view()[j].channel_id == cfg.channel_id by {
                        if j > i as int {
                            assert(self.view()[i as int].guild_id != self.view()[j].guild_id);
                        }
                    }
                }
                return cfg.channel_id;
            }
            i = i + 1;
        }
        None
    }

    /// Configures the guild's announcement channel, replacing any previous
    /// configuration.
    pub fn set_channel(&mut self, guild_id: u64, channel_id: u64)
        requires
            old(self).inv(),
        ensures
            final(self).inv(),
            ({
                let cfg = GuildAnnouncementConfig { guild_id, channel_id: Some(channel_id) };
                (exists|i: int|
                    0 <= i < old(self).view().len() && (#[trigger] old(self).view()[i]).guild_id
                        == guild_id && final(self).view() == old(self).view().update(i, cfg)) || (
                !old(self).contains_guild(guild_id) && final(self).view() == old(
                    self,
                ).view().push(cfg))
            }),
    {
        let cfg = GuildAnnouncementConfig { guild_id, channel_id: Some(channel_id) };
        let mut i: usize = 0;
        while i < self.configs.len()
            invariant
                self == old(self),
                old(self).inv(),
                cfg == (GuildAnnouncementConfig { guild_id, channel_id: Some(channel_id) }),
                i <= self.view().len(),
                forall|j: int| 0 <= j < i ==> (#[trigger] self.view()[j]).guild_id != guild_id,
            decreases self.view().len() - i,
        {
            let stored = self.configs[i];
            if stored.guild_id == guild_id {
                self.configs.set(i, cfg);
                proof {
                    let ov = old(self).view();
                    let nv = self.view();
                    assert(nv == ov.update(i as int, cfg));
                    assert(0 <= (i as int) && (i as int) < ov.len() && ov[i as int].guild_id
                        == guild_id && nv == ov.update(i as int, cfg));
                    assert forall|a: int, b: int| 0 <= a < b < nv.len() implies (
                    #[trigger] nv[a]).guild_id != (#[trigger] nv[b]).guild_id by {
                        if a != i as int && b != i as int {
                            assert(nv[a] == ov[a] && nv[b] == ov[b]);
                        } else if a == i as int {
                            assert(nv[b] == ov[b]);
                            assert(ov[i as int].guild_id == guild_id);
                        } else {
                            assert(nv[a] == ov[a]);
                            assert(ov[i as int].guild_id == guild_id);
                        }
                    }
                }
                return ;
            }
            i = i + 1;
        }
        self.configs.push(cfg);
        proof {
            let ov = old(self).view();
            let nv = self.view();
            assert(nv == ov.push(cfg));
            assert(nv[ov.len() as int].guild_id == guild_id);
            assert forall|a: int, b: int| 0 <= a < b < nv.len() implies (#[trigger] nv[a]).guild_id
                != (#[trigger] nv[b]).guild_id by {
                if b == ov.len() {
                    assert(nv[a] == ov[a]);
                    assert(ov[a].guild_id != guild_id);
                } else {
                    assert(nv[a] == ov[a] && nv[b] == ov[b]);
                }
            }
        }
    }

    /// Removes the guild's configuration; reports whether one existed.
    pub fn unset_channel(&mut self, guild_id: u64) -> (r: bool)
        requires
            old(self).inv(),
        ensures
            final(self).inv(),
            r == old(self).contains_guild(guild_id),
            final(self).view() == old(self).view().filter(
                |cfg: GuildAnnouncementConfig| cfg.guild_id != guild_id,
            ),
    {
        let ghost keep = |cfg: GuildAnnouncementConfig| cfg.guild_id != guild_id;
        let mut out: Vec<GuildAnnouncementConfig> = Vec::new();
        let mut found = false;
        let mut i: usize = 0;
        proof {
            assert(old(self).view().take(0).filter(keep) =~= Seq::<
                GuildAnnouncementConfig,
            >::empty());
        }
        while i < self.configs.len()
            invariant
                self == old(self),
                old(self).inv(),
                i <= self.view().len(),
                keep == (|cfg: GuildAnnouncementConfig| cfg.guild_id != guild_id),
                out@ == self.view().take(i as int).filter(keep),
                found == exists|j: int|
                    0 <= j < i && (#[trigger] self.view()[j]).guild_id == guild_id,
            decreases self.view().len() - i,
        {
            let cfg = self.configs[i];
            if cfg.guild_id == guild_id {
                found = true;
            } else {
                out.push(cfg);
            }
            proof {
                reveal(Seq::filter);
                assert(self.view().take(i + 1).drop_last() =~= self.view().take(i as int));
                assert(self.view().take(i + 1).last() == self.view()[i as int]);
            }
            i = i + 1;
        }
        proof {
            assert(self.view().take(self.view().len() as int) =~= self.view());
        }
        self.configs = out;
        proof {
            let filtered = old(self).view().filter(keep);
            assert forall|i2: int, j2: int| 0 <= i2 < j2 < filtered.len() implies (
            #[trigger] filtered[i2]).guild_id != (#[trigger] filtered[j2]).guild_id by {
                lemma_config_filter_pair_distinct(old(self).view(), keep, i2, j2);
            }
        }
        found
    }
}

/// As `lemma_filter_pair_distinct`, for guild configurations.
proof fn lemma_config_filter_pair_distinct(
    s: Seq<GuildAnnouncementConfig>,
    pred: spec_fn(GuildAnnouncementConfig) -> bool,
    i: int,
    j: int,
)
    requires
        forall|a: int, b: int|
            0 <= a < b < s.len() ==> (#[trigger] s[a]).guild_id != (#[trigger] s[b]).guild_id,
        0 <= i < j < s.filter(pred).len(),
    ensures
        s.filter(pred)[i].guild_id != s.filter(pred)[j].guild_id,
    decreases s.len(),
{
    reveal(Seq::filter);
    let f = s.filter(pred);
    if s.len() > 0 {
        let prefix = s.drop_last();
        let fp = prefix.filter(pred);
        if pred(s.last()) && j == f.len() - 1 {
            lemma_config_filter_element_witness(prefix, pred, i);
            let a = choose|a: int| 0 <= a < prefix.len() && prefix[a] == fp[i] && prefix[a] == fp[i];
            assert(s[a] == f[i]);
        } else {
            lemma_config_filter_pair_distinct(prefix, pred, i, j);
        }
    }
}

/// As `lemma_filter_element_witness`, for guild configurations.
proof fn lemma_config_filter_element_witness(
    s: Seq<GuildAnnouncementConfig>,
    pred: spec_fn(GuildAnnouncementConfig) -> bool,
    i: int,
)
    requires
        0 <= i < s.filter(pred).len(),
    ensures
        exists|a: int| 0 <= a < s.len() && s[a] == s.filter(pred)[i] && s[a] == s.filter(pred)[i],
    decreases s.len(),
{
    reveal(Seq::filter);
    let f = s.filter(pred);
    if s.len() > 0 {
        let prefix = s.drop_last();
        let fp = prefix.filter(pred);
        if pred(s.last()) && i == f.len() - 1 {
            assert(s[s.len() - 1] == f[i]);
        } else {
            lemma_config_filter_element_witness(prefix, pred, i);
            let a = choose|a: int| 0 <= a < prefix.len() && prefix[a] == fp[i] && prefix[a] == fp[i];
            assert(s[a] == f[i]);
        }
    }
}

} // verus!
