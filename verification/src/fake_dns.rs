//! Bounded, expiring fake-IP ownership for one profile generation. A DNS
//! answer is replaced by a fake address drawn from a private pool, so that a
//! later flow to that address can be routed by the domain it was resolved
//! for. Points in time and lifetimes are milliseconds.
use vstd::prelude::*;

use crate::net::{ip_address_equal, IpAddress, IpView};
use crate::routing::str_equal;
use crate::text::{
    ascii_lowercase, to_ascii_lowercase, trim, trim_end_char, trim_end_matches, trim_whitespace,
};

verus! {

/// First fake IPv4 address: 198.18.0.1.
pub const FIRST_FAKE_IPV4: u32 = 0xc612_0001;

/// Last fake IPv4 address: 198.19.255.254.
pub const LAST_FAKE_IPV4: u32 = 0xc613_fffe;

/// First fake IPv6 address: fd00:19::1.
pub const FIRST_FAKE_IPV6: u128 = 0xfd00_0019_0000_0000_0000_0000_0000_0001;

/// One fake-IP allocation with the DNS identity and real answer behind it.
#[derive(Clone, Debug, PartialEq, Eq)]
pub struct FakeDnsMapping {
    pub domain: String,
    pub real_address: IpAddress,
    pub fake_address: IpAddress,
    pub generation: u64,
    expires_at: u64,
}

/// Mathematical content of a mapping.
pub struct MappingView {
    pub domain: Seq<char>,
    pub real_address: IpView,
    pub fake_address: IpView,
    pub generation: u64,
    pub expires_at: u64,
}

impl FakeDnsMapping {
    pub closed spec fn view_of(&self) -> MappingView {
        MappingView {
            domain: self.domain@,
            real_address: self.real_address@,
            fake_address: self.fake_address@,
            generation: self.generation,
            expires_at: self.expires_at,
        }
    }

    /// When the mapping expires.
    pub fn expires_at(&self) -> (at: u64)
        ensures
            at == self.view_of().expires_at,
    {
        self.expires_at
    }

    /// The domain and the real answer that this mapping restores.
    pub fn into_identity(self) -> (identity: (String, IpAddress))
        ensures
            identity.0@ == self.view_of().domain,
            identity.1@ == self.view_of().real_address,
    {
        (self.domain, self.real_address)
    }

    fn duplicate(&self) -> (copy: Self)
        ensures
            copy.view_of() == self.view_of(),
    {
        FakeDnsMapping {
            domain: self.domain.clone(),
            real_address: self.real_address,
            fake_address: self.fake_address,
            generation: self.generation,
            expires_at: self.expires_at,
        }
    }
}

/// Why a fake address was not given or resolved.
#[derive(Clone, Copy, Debug, PartialEq, Eq, Structural)]
pub enum FakeDnsError {
    ZeroCapacity,
    EmptyDomain,
    GenerationMismatch,
    AddressSpaceExhausted,
}

/// The canonical form of a DNS name: without surrounding whitespace or
/// trailing dots, in small letters.
pub open spec fn fake_dns_domain(domain: Seq<char>) -> Seq<char> {
    ascii_lowercase(trim_end_char(trim_whitespace(domain), '.'))
}

/// Whether a canonical name is usable: non-empty and at most 253 octets.
pub open spec fn fake_dns_domain_ok(domain: Seq<char>) -> bool {
    domain.len() > 0 && vstd::utf8::encode_utf8(domain).len() <= 253
}

/// Canonicalises a DNS name.
pub fn normalize_domain(domain: &str) -> (normalized: Result<String, FakeDnsError>)
    ensures
        normalized is Ok <==> fake_dns_domain_ok(fake_dns_domain(domain@)),
        normalized matches Ok(d) ==> d@ == fake_dns_domain(domain@),
        normalized matches Err(e) ==> e == FakeDnsError::EmptyDomain,
{
    let lower = to_ascii_lowercase(trim_end_matches(trim(domain), '.'));
    if lower.as_str().unicode_len() == 0 || lower.as_str().as_bytes().len() > 253 {
        return Err(FakeDnsError::EmptyDomain);
    }
    Ok(lower)
}

/// The mappings of `ms` still alive after `now`, in order.
pub open spec fn unexpired(ms: Seq<MappingView>, now: u64) -> Seq<MappingView>
    decreases ms.len(),
{
    if ms.len() == 0 {
        ms
    } else if ms.last().expires_at > now {
        unexpired(ms.drop_last(), now).push(ms.last())
    } else {
        unexpired(ms.drop_last(), now)
    }
}

/// The fake IPv4 address counted after `n`: the pool wraps around.
pub open spec fn next_fake_ipv4(n: u32) -> u32 {
    if n + 1 > LAST_FAKE_IPV4 {
        FIRST_FAKE_IPV4
    } else {
        (n + 1) as u32
    }
}

/// The four octets of `v`, most significant first.
pub open spec fn ipv4_of(v: u32) -> IpView {
    IpView::V4(seq![(v >> 24u32) as u8, (v >> 16u32) as u8, (v >> 8u32) as u8, v as u8])
}

/// The sixteen octets of `v`, most significant first.
pub open spec fn ipv6_of(v: u128) -> IpView {
    IpView::V6(Seq::new(16, |k: int| (v >> ((120 - 8 * k) as u128)) as u8))
}

/// Whether some mapping of `ms` holds the fake address `a`.
pub open spec fn holds_fake(ms: Seq<MappingView>, a: IpView) -> bool {
    exists|i: int| 0 <= i < ms.len() && #[trigger] ms[i].fake_address == a
}

/// Whether `ms` holds no fake address twice.
pub open spec fn fakes_distinct(ms: Seq<MappingView>) -> bool {
    forall|i: int, j: int| 0 <= i < j < ms.len() ==> #[trigger] ms[i].fake_address != #[trigger] ms[j].fake_address
}

/// The contents of a list of mappings.
pub open spec fn mapping_views(ms: Seq<FakeDnsMapping>) -> Seq<MappingView> {
    ms.map_values(|m: FakeDnsMapping| m.view_of())
}

/// Bounded, TTL-governed fake-IP ownership for one profile generation.
pub struct FakeDnsTable {
    generation: u64,
    capacity: usize,
    mappings: Vec<FakeDnsMapping>,
    next_ipv4: u32,
    next_ipv6: u128,
}

/// What allocating a fake address for `domain` answered with `answer`, valid
/// for `ttl` from `now`, does to the table `old`: the table `new` and the
/// result `fake`. A generation other than the table's is refused and changes
/// nothing; so is a name that normalizes to nothing. Otherwise, after expired
/// mappings are dropped, the first live mapping for the same name and answer
/// is refreshed; without one, the oldest mappings make room and the next free
/// pool address of the answer's family is mapped, or the pool is exhausted.
pub open spec fn allocation(
    old: FakeDnsTable,
    new: FakeDnsTable,
    generation: u64,
    domain: Seq<char>,
    answer: IpAddress,
    ttl: u64,
    now: u64,
    fake: Result<IpAddress, FakeDnsError>,
) -> bool {
    &&& new.spec_generation() == old.spec_generation()
    &&& new.spec_capacity() == old.spec_capacity()
    &&& generation != old.spec_generation() ==> fake == Err::<IpAddress, FakeDnsError>(FakeDnsError::GenerationMismatch) && new.mappings() == old.mappings()
    &&& generation == old.spec_generation() && !fake_dns_domain_ok(fake_dns_domain(domain)) ==> fake == Err::<IpAddress, FakeDnsError>(FakeDnsError::EmptyDomain) && new.mappings() == old.mappings()
    &&& generation == old.spec_generation() && fake_dns_domain_ok(fake_dns_domain(domain)) ==> ({
        let d = fake_dns_domain(domain);
        let live = unexpired(old.mappings(), now);
        if answers(live, d, answer@) {
            exists|i: int| 0 <= i < live.len() && #[trigger] live[i].domain == d && live[i].real_address == answer@
                && (forall|j: int| 0 <= j < i ==> !(#[trigger] live[j].domain == d && live[j].real_address == answer@))
                && (fake matches Ok(a) && a@ == live[i].fake_address)
                && new.mappings() == live.update(i, MappingView { expires_at: (now + ttl) as u64, ..live[i] })
        } else {
            let room = make_room(live, old.spec_capacity() as nat);
            let tries = (old.spec_capacity() + 1) as nat;
            match answer {
                IpAddress::V4(_) => match search_ipv4(room, old.spec_next_ipv4(), tries).0 {
                    Some(v) => fake matches Ok(a) && a@ == ipv4_of(v) && new.mappings() == room.push(MappingView { domain: d, real_address: answer@, fake_address: ipv4_of(v), generation, expires_at: (now + ttl) as u64 }),
                    None => fake == Err::<IpAddress, FakeDnsError>(FakeDnsError::AddressSpaceExhausted) && new.mappings() == room,
                },
                IpAddress::V6(_) => match search_ipv6(room, old.spec_next_ipv6(), tries).0 {
                    Some(v) => fake matches Ok(a) && a@ == ipv6_of(v) && new.mappings() == room.push(MappingView { domain: d, real_address: answer@, fake_address: ipv6_of(v), generation, expires_at: (now + ttl) as u64 }),
                    None => fake == Err::<IpAddress, FakeDnsError>(FakeDnsError::AddressSpaceExhausted) && new.mappings() == room,
                },
            }
        }
    })
}

impl FakeDnsTable {
    /// The mappings, oldest first.
    pub closed spec fn mappings(&self) -> Seq<MappingView> {
        mapping_views(self.mappings@)
    }

    pub closed spec fn spec_generation(&self) -> u64 {
        self.generation
    }

    pub closed spec fn spec_capacity(&self) -> usize {
        self.capacity
    }

    /// A positive capacity, fake addresses held once each, and the IPv4
    /// counter inside its pool.
    pub closed spec fn wf(&self) -> bool {
        &&& self.capacity > 0
        &&& self.mappings@.len() <= self.capacity
        &&& fakes_distinct(self.mappings())
        &&& FIRST_FAKE_IPV4 <= self.next_ipv4 <= LAST_FAKE_IPV4
    }

    /// An empty table for `generation` holding at most `capacity` mappings.
    pub fn new(generation: u64, capacity: usize) -> (table: Result<Self, FakeDnsError>)
        ensures
            table is Err <==> capacity == 0,
            table matches Err(e) ==> e == FakeDnsError::ZeroCapacity,
            table matches Ok(t) ==> {
                &&& t.wf()
                &&& t.spec_generation() == generation
                &&& t.spec_capacity() == capacity
                &&& t.mappings() == Seq::<MappingView>::empty()
            },
    {
        if capacity == 0 {
            return Err(FakeDnsError::ZeroCapacity);
        }
        let table = FakeDnsTable {
            generation,
            capacity,
            mappings: Vec::new(),
            next_ipv4: FIRST_FAKE_IPV4,
            next_ipv6: FIRST_FAKE_IPV6,
        };
        assert(table.mappings() =~= Seq::<MappingView>::empty());
        Ok(table)
    }

    pub fn generation(&self) -> (generation: u64)
        ensures
            generation == self.spec_generation(),
    {
        self.generation
    }

    pub closed spec fn spec_next_ipv4(&self) -> u32 {
        self.next_ipv4
    }

    pub closed spec fn spec_next_ipv6(&self) -> u128 {
        self.next_ipv6
    }

    fn holds(&self, address: &IpAddress) -> (held: bool)
        ensures
            held == holds_fake(self.mappings(), address@),
    {
        let mut i: usize = 0;
        while i < self.mappings.len()
            invariant
                i <= self.mappings@.len(),
                forall|k: int| 0 <= k < i ==> #[trigger] self.mappings()[k].fake_address != address@,
            decreases self.mappings@.len() - i,
        {
            if ip_address_equal(&self.mappings[i].fake_address, address) {
                assert(self.mappings()[i as int].fake_address == address@);
                return true;
            }
            i = i + 1;
        }
        false
    }

    #[verifier::loop_isolation(false)]
    fn next_address(&mut self, answer: &IpAddress) -> (address: Result<IpAddress, FakeDnsError>)
        requires
            old(self).wf(),
        ensures
            final(self).wf(),
            final(self).mappings() == old(self).mappings(),
            final(self).spec_generation() == old(self).spec_generation(),
            final(self).spec_capacity() == old(self).spec_capacity(),
            match answer {
                IpAddress::V4(_) => {
                    let (found, next) = search_ipv4(old(self).mappings(), old(self).spec_next_ipv4(), (old(self).spec_capacity() + 1) as nat);
                    &&& final(self).spec_next_ipv4() == next
                    &&& final(self).spec_next_ipv6() == old(self).spec_next_ipv6()
                    &&& match found {
                        Some(v) => address matches Ok(a) && a@ == ipv4_of(v),
                        None => address == Err::<IpAddress, FakeDnsError>(FakeDnsError::AddressSpaceExhausted),
                    }
                },
                IpAddress::V6(_) => {
                    let (found, next) = search_ipv6(old(self).mappings(), old(self).spec_next_ipv6(), (old(self).spec_capacity() + 1) as nat);
                    &&& final(self).spec_next_ipv6() == next
                    &&& final(self).spec_next_ipv4() == old(self).spec_next_ipv4()
                    &&& match found {
                        Some(v) => address matches Ok(a) && a@ == ipv6_of(v),
                        None => address == Err::<IpAddress, FakeDnsError>(FakeDnsError::AddressSpaceExhausted),
                    }
                },
            },
    {
        let ghost ms = self.mappings();
        let ghost tries_total = (self.capacity + 1) as nat;
        let mut tries: u128 = 0;
        match answer {
            IpAddress::V4(_) => {
                let ghost start = self.next_ipv4;
                loop
                    invariant
                        tries <= self.capacity + 1,
                        self.mappings() == ms,
                        self.wf(),
                        self.generation == old(self).generation,
                        self.capacity == old(self).capacity,
                        self.next_ipv6 == old(self).next_ipv6,
                        search_ipv4(ms, start, tries_total) == search_ipv4(ms, self.next_ipv4, (tries_total - tries) as nat),
                    decreases self.capacity + 1 - tries,
                {
                    if tries > self.capacity as u128 {
                        return Err(FakeDnsError::AddressSpaceExhausted);
                    }
                    let candidate = self.next_ipv4;
                    self.next_ipv4 = if candidate >= LAST_FAKE_IPV4 { FIRST_FAKE_IPV4 } else { candidate + 1 };
                    let address = ipv4_address(candidate);
                    if !self.holds(&address) {
                        return Ok(address);
                    }
                    tries = tries + 1;
                }
            },
            IpAddress::V6(_) => {
                let ghost start = self.next_ipv6;
                loop
                    invariant
                        tries <= self.capacity + 1,
                        self.mappings() == ms,
                        self.wf(),
                        self.generation == old(self).generation,
                        self.capacity == old(self).capacity,
                        self.next_ipv4 == old(self).next_ipv4,
                        search_ipv6(ms, start, tries_total) == search_ipv6(ms, self.next_ipv6, (tries_total - tries) as nat),
                    decreases self.capacity + 1 - tries,
                {
                    if tries > self.capacity as u128 {
                        return Err(FakeDnsError::AddressSpaceExhausted);
                    }
                    let candidate = self.next_ipv6;
                    if candidate == u128::MAX {
                        return Err(FakeDnsError::AddressSpaceExhausted);
                    }
                    self.next_ipv6 = candidate + 1;
                    let address = ipv6_address(candidate);
                    if !self.holds(&address) {
                        return Ok(address);
                    }
                    tries = tries + 1;
                }
            },
        }
    }

    /// The fake address for `domain` answered with `answer`, valid for `ttl`
    /// from `now`: after expired mappings are dropped, an existing mapping
    /// for the same name and answer is refreshed; otherwise the oldest
    /// mappings make room and a fresh pool address of the answer's family is
    /// mapped.
    #[verifier::loop_isolation(false)]
    pub fn allocate(&mut self, generation: u64, domain: &str, answer: IpAddress, ttl: u64, now: u64) -> (fake: Result<IpAddress, FakeDnsError>)
        requires
            old(self).wf(),
            now + ttl <= u64::MAX,
        ensures
            final(self).wf(),
            allocation(*old(self), *final(self), generation, domain@, answer, ttl, now, fake),
    {
        if generation != self.generation {
            return Err(FakeDnsError::GenerationMismatch);
        }
        let d = normalize_domain(domain)?;
        self.remove_expired(now);
        let ghost live = self.mappings();
        let mut i: usize = 0;
        while i < self.mappings.len()
            invariant
                i <= self.mappings@.len(),
                live == self.mappings(),
                self.wf(),
                self.generation == old(self).generation,
                self.capacity == old(self).capacity,
                self.next_ipv4 == old(self).next_ipv4,
                self.next_ipv6 == old(self).next_ipv6,
                forall|j: int| 0 <= j < i ==> !(#[trigger] live[j].domain == d@ && live[j].real_address == answer@),
            decreases self.mappings@.len() - i,
        {
            if str_equal(self.mappings[i].domain.as_str(), d.as_str()) && ip_address_equal(&self.mappings[i].real_address, &answer) {
                let fake = self.mappings[i].fake_address;
                let mut refreshed = self.mappings[i].duplicate();
                refreshed.expires_at = now + ttl;
                let ghost before = self.mappings@;
                self.mappings.set(i, refreshed);
                proof {
                    assert(mapping_views(self.mappings@) =~= mapping_views(before).update(i as int, MappingView { expires_at: (now + ttl) as u64, ..live[i as int] }));
                    assert(live[i as int].domain == d@);
                    assert forall|a: int, b: int| 0 <= a < b < self.mappings@.len() implies #[trigger] self.mappings()[a].fake_address != #[trigger] self.mappings()[b].fake_address by {
                        assert(self.mappings()[a].fake_address == live[a].fake_address);
                        assert(self.mappings()[b].fake_address == live[b].fake_address);
                    }
                }
                return Ok(fake);
            }
            i = i + 1;
        }
        assert(!answers(live, d@, answer@));
        while self.mappings.len() >= self.capacity
            invariant
                self.wf(),
                self.generation == old(self).generation,
                self.capacity == old(self).capacity,
                self.next_ipv4 == old(self).next_ipv4,
                self.next_ipv6 == old(self).next_ipv6,
                live.len() >= self.capacity ==> self.mappings@.len() >= self.capacity - 1,
                live.len() < self.capacity ==> self.mappings@.len() == live.len(),
                self.mappings() == live.subrange(live.len() - self.mappings@.len(), live.len() as int),
                self.mappings@.len() <= live.len(),
                fakes_distinct(self.mappings()),
            decreases self.mappings@.len(),
        {
            let ghost before = self.mappings();
            self.mappings.remove(0);
            proof {
                assert(self.mappings() =~= before.drop_first());
                assert(before.drop_first() =~= live.subrange(live.len() - self.mappings@.len(), live.len() as int));
            }
        }
        proof {
            if live.len() >= self.capacity {
                assert(self.mappings@.len() == self.capacity - 1);
            } else {
                assert(self.mappings() =~= live);
            }
            assert(self.mappings() == make_room(live, self.capacity as nat));
        }
        let ghost counters = (self.next_ipv4, self.next_ipv6);
        proof {
            lemma_search_ipv4_fresh(self.mappings(), self.next_ipv4, (self.capacity + 1) as nat);
            lemma_search_ipv6_fresh(self.mappings(), self.next_ipv6, (self.capacity + 1) as nat);
        }
        let fake = self.next_address(&answer)?;
        let ghost room = self.mappings();
        assert(!holds_fake(room, fake@));
        self.mappings.push(FakeDnsMapping { domain: d, real_address: answer, fake_address: fake, generation, expires_at: now + ttl });
        proof {
            assert(self.mappings() =~= room.push(MappingView { domain: d@, real_address: answer@, fake_address: fake@, generation, expires_at: (now + ttl) as u64 }));
            assert forall|a: int, b: int| 0 <= a < b < self.mappings@.len() implies #[trigger] self.mappings()[a].fake_address != #[trigger] self.mappings()[b].fake_address by {
                if b == room.len() {
                    assert(self.mappings()[a] == room[a]);
                }
            }
        }
        Ok(fake)
    }

    /// The live mapping of `fake_address` at `now`, after expired mappings
    /// are dropped; refused for another generation.
    #[verifier::loop_isolation(false)]
    pub fn resolve(&mut self, generation: u64, fake_address: IpAddress, now: u64) -> (mapping: Result<Option<FakeDnsMapping>, FakeDnsError>)
        requires
            old(self).wf(),
        ensures
            final(self).wf(),
            final(self).spec_generation() == old(self).spec_generation(),
            final(self).spec_capacity() == old(self).spec_capacity(),
            generation != old(self).spec_generation() ==> mapping == Err::<Option<FakeDnsMapping>, FakeDnsError>(FakeDnsError::GenerationMismatch) && final(self).mappings() == old(self).mappings(),
            generation == old(self).spec_generation() ==> final(self).mappings() == unexpired(old(self).mappings(), now) && match mapping {
                Ok(Some(m)) => final(self).mappings().contains(m.view_of()) && m.view_of().fake_address == fake_address@,
                Ok(None) => !holds_fake(final(self).mappings(), fake_address@),
                Err(_) => false,
            },
    {
        if generation != self.generation {
            return Err(FakeDnsError::GenerationMismatch);
        }
        self.remove_expired(now);
        let mut i: usize = 0;
        while i < self.mappings.len()
            invariant
                i <= self.mappings@.len(),
                forall|k: int| 0 <= k < i ==> #[trigger] self.mappings()[k].fake_address != fake_address@,
            decreases self.mappings@.len() - i,
        {
            if ip_address_equal(&self.mappings[i].fake_address, &fake_address) {
                let found = self.mappings[i].duplicate();
                assert(self.mappings()[i as int] == found.view_of());
                return Ok(Some(found));
            }
            i = i + 1;
        }
        Ok(None)
    }

    /// Moves to another generation, dropping every mapping.
    pub fn replace_generation(&mut self, generation: u64)
        requires
            old(self).wf(),
        ensures
            final(self).wf(),
            final(self).spec_generation() == generation,
            final(self).spec_capacity() == old(self).spec_capacity(),
            final(self).mappings() == Seq::<MappingView>::empty(),
    {
        self.generation = generation;
        self.mappings.clear();
        assert(self.mappings() =~= Seq::<MappingView>::empty());
    }

    fn remove_expired(&mut self, now: u64)
        requires
            old(self).wf(),
        ensures
            final(self).wf(),
            final(self).spec_generation() == old(self).spec_generation(),
            final(self).spec_capacity() == old(self).spec_capacity(),
            final(self).next_ipv4 == old(self).next_ipv4,
            final(self).next_ipv6 == old(self).next_ipv6,
            final(self).mappings() == unexpired(old(self).mappings(), now),
            forall|i: int| 0 <= i < final(self).mappings().len() ==> old(self).mappings().contains(#[trigger] final(self).mappings()[i]),
    {
        let ghost all = self.mappings();
        let mut kept: Vec<FakeDnsMapping> = Vec::new();
        let mut i: usize = 0;
        assert(all.subrange(0, 0) =~= Seq::<MappingView>::empty());
        assert(mapping_views(kept@) =~= Seq::<MappingView>::empty());
        while i < self.mappings.len()
            invariant
                i <= self.mappings@.len(),
                all == self.mappings(),
                fakes_distinct(all),
                mapping_views(kept@) == unexpired(all.subrange(0, i as int), now),
                kept@.len() <= i,
                forall|k: int| 0 <= k < kept@.len() ==> all.subrange(0, i as int).contains(#[trigger] mapping_views(kept@)[k]),
                fakes_distinct(mapping_views(kept@)),
            decreases self.mappings@.len() - i,
        {
            proof {
                assert(all.subrange(0, i + 1).drop_last() =~= all.subrange(0, i as int));
                assert(all.subrange(0, i + 1).last() == all[i as int]);
            }
            if self.mappings[i].expires_at > now {
                let ghost before = mapping_views(kept@);
                kept.push(self.mappings[i].duplicate());
                proof {
                    assert(mapping_views(kept@) =~= before.push(all[i as int]));
                    assert forall|k: int| 0 <= k < kept@.len() implies all.subrange(0, i + 1).contains(#[trigger] mapping_views(kept@)[k]) by {
                        if k < before.len() {
                            assert(all.subrange(0, i as int).contains(before[k]));
                            let w = choose|w: int| 0 <= w < i && all.subrange(0, i as int)[w] == before[k];
                            assert(all.subrange(0, i + 1)[w] == before[k]);
                        } else {
                            assert(all.subrange(0, i + 1)[i as int] == all[i as int]);
                        }
                    }
                    assert forall|a: int, b: int| 0 <= a < b < kept@.len() implies #[trigger] mapping_views(kept@)[a].fake_address != #[trigger] mapping_views(kept@)[b].fake_address by {
                        if b == before.len() {
                            let w = choose|w: int| 0 <= w < i && all.subrange(0, i as int)[w] == before[a];
                            assert(all[w] == before[a]);
                            assert(0 <= w < i);
                            assert(fakes_distinct(all));
                            assert(all[w].fake_address != all[i as int].fake_address);
                        }
                    }
                }
            } else {
                proof {
                    assert forall|k: int| 0 <= k < kept@.len() implies all.subrange(0, i + 1).contains(#[trigger] mapping_views(kept@)[k]) by {
                        let w = choose|w: int| 0 <= w < i && all.subrange(0, i as int)[w] == mapping_views(kept@)[k];
                        assert(all.subrange(0, i + 1)[w] == all.subrange(0, i as int)[w]);
                    }
                }
            }
            i = i + 1;
        }
        proof {
            assert(all.subrange(0, i as int) =~= all);
        }
        self.mappings = kept;
    }
}


/// The fake IPv4 address a search gives and the counter it leaves, trying
/// up to `tries` addresses from `next` and skipping those held.
pub open spec fn search_ipv4(ms: Seq<MappingView>, next: u32, tries: nat) -> (Option<u32>, u32)
    decreases tries,
{
    if tries == 0 {
        (None, next)
    } else if !holds_fake(ms, ipv4_of(next)) {
        (Some(next), next_fake_ipv4(next))
    } else {
        search_ipv4(ms, next_fake_ipv4(next), (tries - 1) as nat)
    }
}

/// The fake IPv6 address a search gives and the counter it leaves, trying
/// up to `tries` addresses from `next`; the counter never wraps.
pub open spec fn search_ipv6(ms: Seq<MappingView>, next: u128, tries: nat) -> (Option<u128>, u128)
    decreases tries,
{
    if tries == 0 || next == u128::MAX {
        (None, next)
    } else if !holds_fake(ms, ipv6_of(next)) {
        (Some(next), (next + 1) as u128)
    } else {
        search_ipv6(ms, (next + 1) as u128, (tries - 1) as nat)
    }
}

/// The live mappings after dropping the oldest until one more fits.
pub open spec fn make_room(ms: Seq<MappingView>, capacity: nat) -> Seq<MappingView> {
    if ms.len() >= capacity {
        ms.subrange(ms.len() - capacity + 1, ms.len() as int)
    } else {
        ms
    }
}

/// Expiry law: the live mappings at `now` are exactly the mappings that
/// expire after `now`; a mapping expiring at `now` or before is gone.
pub proof fn lemma_unexpired_members(ms: Seq<MappingView>, now: u64)
    ensures
        forall|m: MappingView| #[trigger] unexpired(ms, now).contains(m) ==> ms.contains(m)
            && m.expires_at > now,
        forall|i: int| 0 <= i < ms.len() && #[trigger] ms[i].expires_at > now ==> unexpired(
            ms,
            now,
        ).contains(ms[i]),
    decreases ms.len(),
{
    if ms.len() > 0 {
        let init = ms.drop_last();
        lemma_unexpired_members(init, now);
        let u = unexpired(ms, now);
        let ui = unexpired(init, now);
        assert forall|m: MappingView| #[trigger] u.contains(m) implies ms.contains(m) && m.expires_at > now by {
            if ms.last().expires_at > now {
                let k = choose|k: int| 0 <= k < u.len() && u[k] == m;
                if k < ui.len() {
                    assert(ui[k] == m);
                    assert(ui.contains(m));
                    let j = choose|j: int| 0 <= j < init.len() && init[j] == m;
                    assert(ms[j] == m);
                } else {
                    assert(ms[ms.len() - 1] == m);
                }
            } else {
                assert(ui.contains(m));
                let j = choose|j: int| 0 <= j < init.len() && init[j] == m;
                assert(ms[j] == m);
            }
        }
        assert forall|i: int| 0 <= i < ms.len() && #[trigger] ms[i].expires_at > now implies u.contains(
            ms[i],
        ) by {
            if i < ms.len() - 1 {
                assert(init[i] == ms[i]);
                assert(init[i].expires_at > now);
                assert(ui.contains(init[i]));
                let k = choose|k: int| 0 <= k < ui.len() && ui[k] == ms[i];
                if ms.last().expires_at > now {
                    assert(u[k] == ms[i]);
                } else {
                    assert(u[k] == ms[i]);
                }
            } else {
                assert(u[u.len() - 1] == ms[i]);
            }
        }
    }
}

/// Allocation law: an allocation that gives the fake address `fake` leaves
/// the table holding a mapping of `fake` for the canonical name and the
/// answer that expires exactly `ttl` after `now`, so that at any time `t`
/// before then the live mappings still hold `fake`, and every live mapping
/// of `fake` is that one.
pub proof fn lemma_allocated_mapping_lives(
    old: FakeDnsTable,
    new: FakeDnsTable,
    generation: u64,
    domain: Seq<char>,
    answer: IpAddress,
    ttl: u64,
    now: u64,
    fake: IpAddress,
    t: u64,
)
    requires
        allocation(old, new, generation, domain, answer, ttl, now, Ok(fake)),
        new.wf(),
        now + ttl <= u64::MAX,
        t < now + ttl,
    ensures
        exists|i: int|
            0 <= i < new.mappings().len() && #[trigger] new.mappings()[i].fake_address == fake@
                && new.mappings()[i].domain == fake_dns_domain(domain)
                && new.mappings()[i].real_address == answer@ && new.mappings()[i].expires_at == now
                + ttl,
        holds_fake(unexpired(new.mappings(), t), fake@),
        forall|m: MappingView|
            #[trigger] unexpired(new.mappings(), t).contains(m) && m.fake_address == fake@ ==> m.domain
                == fake_dns_domain(domain) && m.real_address == answer@ && m.expires_at == now + ttl,
{
    let ms = new.mappings();
    let d = fake_dns_domain(domain);
    let live = unexpired(old.mappings(), now);
    let i: int = if answers(live, d, answer@) {
        choose|i: int| 0 <= i < live.len() && #[trigger] live[i].domain == d && live[i].real_address == answer@
            && (forall|j: int| 0 <= j < i ==> !(#[trigger] live[j].domain == d && live[j].real_address == answer@))
            && (Ok::<IpAddress, FakeDnsError>(fake) matches Ok(a) && a@ == live[i].fake_address)
            && ms == live.update(i, MappingView { expires_at: (now + ttl) as u64, ..live[i] })
    } else {
        ms.len() - 1
    };
    assert(0 <= i < ms.len() && ms[i].fake_address == fake@ && ms[i].domain == d && ms[i].real_address
        == answer@ && ms[i].expires_at == now + ttl);
    lemma_unexpired_members(ms, t);
    assert(unexpired(ms, t).contains(ms[i]));
    let k = choose|k: int| 0 <= k < unexpired(ms, t).len() && unexpired(ms, t)[k] == ms[i];
    assert(unexpired(ms, t)[k].fake_address == fake@);
    assert forall|m: MappingView| #[trigger] unexpired(ms, t).contains(m) && m.fake_address == fake@
        implies m.domain == d && m.real_address == answer@ && m.expires_at == now + ttl by {
        assert(ms.contains(m));
        let j = choose|j: int| 0 <= j < ms.len() && ms[j] == m;
        if j != i {
            if j < i {
                assert(ms[j].fake_address != ms[i].fake_address);
            } else {
                assert(ms[i].fake_address != ms[j].fake_address);
            }
        }
    }
}

/// Whether some mapping of `ms` answers `domain` with `real`.
pub open spec fn answers(ms: Seq<MappingView>, domain: Seq<char>, answer: IpView) -> bool {
    exists|i: int| 0 <= i < ms.len() && #[trigger] ms[i].domain == domain && ms[i].real_address == answer
}

fn ipv4_address(v: u32) -> (address: IpAddress)
    ensures
        address@ == ipv4_of(v),
{
    let octets = [(v >> 24u32) as u8, (v >> 16u32) as u8, (v >> 8u32) as u8, v as u8];
    assert(octets@ =~= seq![(v >> 24u32) as u8, (v >> 16u32) as u8, (v >> 8u32) as u8, v as u8]);
    IpAddress::V4(octets)
}

fn ipv6_address(v: u128) -> (address: IpAddress)
    ensures
        address@ == ipv6_of(v),
{
    let mut octets = [0u8; 16];
    let mut k: u128 = 0;
    while k < 16
        invariant
            k <= 16,
            octets@.len() == 16,
            forall|j: int| 0 <= j < k ==> octets@[j] == (v >> ((120 - 8 * j) as u128)) as u8,
        decreases 16 - k,
    {
        octets[k as usize] = (v >> (120 - 8 * k)) as u8;
        k = k + 1;
    }
    assert(octets@ =~= Seq::new(16, |j: int| (v >> ((120 - 8 * j) as u128)) as u8));
    IpAddress::V6(octets)
}

proof fn lemma_search_ipv4_fresh(ms: Seq<MappingView>, next: u32, tries: nat)
    ensures
        search_ipv4(ms, next, tries).0 matches Some(v) ==> !holds_fake(ms, ipv4_of(v)),
    decreases tries,
{
    if tries > 0 && holds_fake(ms, ipv4_of(next)) {
        lemma_search_ipv4_fresh(ms, next_fake_ipv4(next), (tries - 1) as nat);
    }
}

proof fn lemma_search_ipv6_fresh(ms: Seq<MappingView>, next: u128, tries: nat)
    ensures
        search_ipv6(ms, next, tries).0 matches Some(v) ==> !holds_fake(ms, ipv6_of(v)),
    decreases tries,
{
    if tries > 0 && next != u128::MAX && holds_fake(ms, ipv6_of(next)) {
        lemma_search_ipv6_fresh(ms, (next + 1) as u128, (tries - 1) as nat);
    }
}

} // verus!
