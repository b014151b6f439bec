//! Looking up the relays for a source.  The lookups decide what to ask and what
//! an answer means; the caller sends the queries and hands the answers back.

use crate::candidates::{
    order_relay_candidates, ordered_below, record_models, records_below, selection_models,
    sort_records, DriadRelaySelection, SelectionModel,
};
use crate::dns::{
    address_response, build_dns_query, name_fits, parse_address_response, parse_dns_response,
    query_wire, relay_response, trimmed, AmtRelayRecord, AmtRelayTarget, RelayRecordModel,
    TargetModel, Timed,
};
use crate::driad::{
    config_error, reverse_name, reverse_source_name, DriadError, DriadErrorModel, DriadResolver,
    DriadResolverConfig, MAX_ALIAS_DEPTH,
};
use crate::net::{IpAddr, SocketAddr};
use crate::protocol::AMT_PORT;
use crate::random::random_u16;
use crate::text::{lowered, same_bytes, to_lower};
use crate::time::Duration;
use vstd::prelude::*;
use vstd::utf8::encode_utf8;

verus! {

/// Whether a relay can be reached under an address.
pub open spec fn usable(address: IpAddr) -> bool {
    match address {
        IpAddr::V4(a) => !a.unspecified_spec() && !a.multicast_spec() && !a.broadcast_spec(),
        IpAddr::V6(a) => !a.unspecified_spec() && !a.multicast_spec()
            && !a.unicast_link_local_spec(),
    }
}

/// Whether a relay can be reached under an address.
pub fn is_usable_relay_address(address: IpAddr) -> (b: bool)
    ensures
        b == usable(address),
{
    match address {
        IpAddr::V4(a) => !a.is_unspecified() && !a.is_multicast() && !a.is_broadcast(),
        IpAddr::V6(a) => !a.is_unspecified() && !a.is_multicast() && !a.is_unicast_link_local(),
    }
}

/// The bytes of the answer to a query, with the query's number, or why there is
/// none.
pub type DnsReply = Result<(u16, Vec<u8>), DriadError>;

/// Where a round of queries for a name stands: at which attempt, and at which
/// resolver.  Every attempt asks all resolvers in their order.
#[derive(Debug, Clone, Copy, PartialEq, Eq, Structural)]
pub struct QueryPlace {
    pub attempt: usize,
    pub index: usize,
}

impl QueryPlace {
    pub open spec fn first_spec() -> Self {
        QueryPlace { attempt: 0, index: 0 }
    }

    /// The place after this one, if there is any.
    pub open spec fn next_spec(self, config: DriadResolverConfig) -> Option<QueryPlace> {
        if self.index + 1 < config.resolvers@.len() {
            Some(QueryPlace { attempt: self.attempt, index: (self.index + 1) as usize })
        } else if self.attempt + 1 < config.attempts {
            Some(QueryPlace { attempt: (self.attempt + 1) as usize, index: 0 })
        } else {
            None
        }
    }

    fn next(self, config: &DriadResolverConfig) -> (place: Option<QueryPlace>)
        ensures
            place == self.next_spec(*config),
    {
        let count: usize = config.resolvers.len();
        if self.index < count && count - self.index > 1 {
            Some(QueryPlace { attempt: self.attempt, index: self.index + 1 })
        } else if self.attempt < config.attempts && config.attempts - self.attempt > 1 {
            Some(QueryPlace { attempt: self.attempt + 1, index: 0 })
        } else {
            None
        }
    }
}

/// A lookup of the relays under a name, aliases followed: the next query to
/// send, or what came out.
#[derive(Debug, PartialEq, Eq)]
pub enum RelayLookup {
    Asking(NameWalk),
    Done(Result<Vec<Timed<AmtRelayRecord>>, DriadError>),
}

/// A lookup of the addresses under a name, aliases followed.
#[derive(Debug, PartialEq, Eq)]
pub enum HostLookup {
    /// The last failure goes with the query.
    Asking(NameWalk, DriadError),
    Done(Result<Vec<Timed<IpAddr>>, DriadError>),
}

/// How far a lookup has come.
#[derive(Debug, PartialEq, Eq)]
pub struct NameWalk {
    /// The name that the lookup started with.
    pub origin: String,
    /// The name that is asked for now.
    pub current: String,
    /// The names asked for so far, in lower case.
    pub visited: Vec<Vec<u8>>,
    /// How long the aliases so far may be kept.
    pub alias_ttl: Duration,
    /// The query that is due.
    pub place: QueryPlace,
}

/// A [`NameWalk`] with its names as UTF-8 bytes.
#[verifier::ext_equal]
pub struct WalkModel {
    pub origin: Seq<u8>,
    pub current: Seq<u8>,
    pub visited: Seq<Seq<u8>>,
    pub alias_ttl: Duration,
    pub place: QueryPlace,
}

impl View for NameWalk {
    type V = WalkModel;

    open spec fn view(&self) -> WalkModel {
        WalkModel {
            origin: encode_utf8(self.origin@),
            current: encode_utf8(self.current@),
            visited: self.visited@.map_values(|name: Vec<u8>| name@),
            alias_ttl: self.alias_ttl,
            place: self.place,
        }
    }
}

/// Whether a name can be asked for next, and why not: only so many names are
/// asked for, and none twice.
pub open spec fn walk_error(walk: WalkModel) -> Option<DriadErrorModel> {
    if walk.visited.len() >= MAX_ALIAS_DEPTH {
        Some(DriadErrorModel::AliasDepthExceeded(walk.origin))
    } else if walk.visited.contains(lowered(walk.current)) {
        Some(DriadErrorModel::AliasLoop(walk.current))
    } else {
        None
    }
}

/// A walk that goes on to ask for its current name.
pub open spec fn walk_entered(walk: WalkModel) -> WalkModel {
    WalkModel { visited: walk.visited.push(lowered(walk.current)), place: QueryPlace::first_spec(), ..walk }
}

/// A walk that goes on to an alias.
pub open spec fn walk_to(walk: WalkModel, alias: Timed<Seq<u8>>) -> WalkModel {
    WalkModel {
        current: alias.value,
        alias_ttl: walk.alias_ttl.min_spec(alias.ttl),
        place: QueryPlace::first_spec(),
        ..walk
    }
}

/// A walk at its start.
pub open spec fn walk_start(name: Seq<u8>) -> WalkModel {
    WalkModel {
        origin: name,
        current: name,
        visited: Seq::empty(),
        alias_ttl: Duration::max_span(),
        place: QueryPlace::first_spec(),
    }
}

impl NameWalk {
    fn new(name: &str) -> (walk: Self)
        ensures
            walk@ == walk_start(encode_utf8(name@)),
    {
        let walk = NameWalk {
            origin: name.to_owned(),
            current: name.to_owned(),
            visited: Vec::new(),
            alias_ttl: Duration::max_value(),
            place: QueryPlace { attempt: 0, index: 0 },
        };
        proof {
            assert(walk@.visited =~= Seq::empty());
        }
        walk
    }

    fn was_visited(&self, name: &[u8]) -> (b: bool)
        ensures
            b == self@.visited.contains(name@),
    {
        let mut i: usize = 0;
        while i < self.visited.len()
            invariant
                i <= self.visited@.len(),
                forall|k: int| 0 <= k < i ==> self@.visited[k] != name@,
            decreases self.visited@.len() - i,
        {
            if same_bytes(self.visited[i].as_slice(), name) {
                proof {
                    assert(self@.visited[i as int] == name@);
                }
                return true;
            }
            i += 1;
        }
        false
    }

    /// Goes on to ask for the current name, unless that is not to be done.
    fn enter(self) -> (result: Result<NameWalk, DriadError>)
        ensures
            match result {
                Ok(walk) => walk_error(self@) is None && walk@ == walk_entered(self@),
                Err(error) => walk_error(self@) == Some(error@),
            },
    {
        if self.visited.len() >= MAX_ALIAS_DEPTH {
            return Err(DriadError::AliasDepthExceeded(self.origin));
        }
        let name = to_lower(self.current.as_str().as_bytes());
        if self.was_visited(name.as_slice()) {
            return Err(DriadError::AliasLoop(self.current));
        }
        let mut visited: Vec<Vec<u8>> = self.visited;
        visited.push(name);
        let walk = NameWalk {
            origin: self.origin,
            current: self.current,
            visited,
            alias_ttl: self.alias_ttl,
            place: QueryPlace { attempt: 0, index: 0 },
        };
        proof {
            assert(walk@.visited =~= self@.visited.push(name@));
        }
        Ok(walk)
    }

    /// Goes on to an alias.
    fn follow(self, alias: Timed<String>) -> (walk: NameWalk)
        ensures
            walk@ == walk_to(self@, crate::dns::timed_name(alias)),
    {
        NameWalk {
            origin: self.origin,
            current: alias.value,
            visited: self.visited,
            alias_ttl: self.alias_ttl.min(alias.ttl),
            place: QueryPlace { attempt: 0, index: 0 },
        }
    }

    /// Goes on to another query for the same name.
    fn again(self, place: QueryPlace) -> (walk: NameWalk)
        ensures
            walk@ == (WalkModel { place, ..self@ }),
    {
        NameWalk {
            origin: self.origin,
            current: self.current,
            visited: self.visited,
            alias_ttl: self.alias_ttl,
            place,
        }
    }

    /// The resolver that the due query goes to, and at which attempt.
    pub fn question(&self, config: &DriadResolverConfig) -> (question: Option<(SocketAddr, usize)>)
        ensures
            question == if self.place.index < config.resolvers@.len() {
                Some((config.resolvers@[self.place.index as int], self.place.attempt))
            } else {
                None
            },
    {
        if self.place.index < config.resolvers.len() {
            Some((config.resolvers[self.place.index], self.place.attempt))
        } else {
            None
        }
    }
}

/// A [`RelayLookup`] with its names as UTF-8 bytes.
#[allow(inconsistent_fields)]
pub enum RelayLookupModel {
    Asking(WalkModel),
    Done(Result<Seq<Timed<RelayRecordModel>>, DriadErrorModel>),
}

impl View for RelayLookup {
    type V = RelayLookupModel;

    open spec fn view(&self) -> RelayLookupModel {
        match *self {
            RelayLookup::Asking(walk) => RelayLookupModel::Asking(walk@),
            RelayLookup::Done(Ok(records)) => RelayLookupModel::Done(
                Ok(record_models(records@)),
            ),
            RelayLookup::Done(Err(error)) => RelayLookupModel::Done(Err(error@)),
        }
    }
}

/// A lookup of relays that comes to a new name.
pub open spec fn relay_lookup_at(config: DriadResolverConfig, walk: WalkModel) -> RelayLookupModel {
    match walk_error(walk) {
        Some(error) => RelayLookupModel::Done(Err(error)),
        None => if config.resolvers@.len() == 0 {
            RelayLookupModel::Done(Err(DriadErrorModel::NoResolvers))
        } else {
            RelayLookupModel::Asking(walk_entered(walk))
        },
    }
}

/// Records none of which may be kept longer than the given span.
pub open spec fn records_within(records: Seq<Timed<RelayRecordModel>>, ttl: Duration) -> Seq<
    Timed<RelayRecordModel>,
> {
    records.map_values(
        |record: Timed<RelayRecordModel>|
            Timed { value: record.value, ttl: record.ttl.min_spec(ttl) },
    )
}

/// A reply in terms of bytes.
pub open spec fn reply_model(reply: DnsReply) -> Result<(u16, Seq<u8>), DriadErrorModel> {
    match reply {
        Ok((id, bytes)) => Ok((id, bytes@)),
        Err(error) => Err(error@),
    }
}

/// A lookup of relays after the reply to its query.  Relays end it, else the
/// first alias is followed; a reply that cannot be read leads to the next
/// query.
pub open spec fn relay_lookup_after(
    config: DriadResolverConfig,
    walk: WalkModel,
    reply: Result<(u16, Seq<u8>), DriadErrorModel>,
) -> RelayLookupModel {
    let outcome = match reply {
        Ok((id, bytes)) => relay_response(id, walk.current, bytes),
        Err(error) => Err(error),
    };
    match outcome {
        Err(error) => match walk.place.next_spec(config) {
            Some(place) => RelayLookupModel::Asking(WalkModel { place, ..walk }),
            None => RelayLookupModel::Done(Err(error)),
        },
        Ok(response) => if response.records.len() > 0 {
            RelayLookupModel::Done(Ok(records_within(response.records, walk.alias_ttl)))
        } else if response.aliases.len() == 0 {
            RelayLookupModel::Done(Err(DriadErrorModel::NoRecords(walk.current)))
        } else {
            relay_lookup_at(config, walk_to(walk, response.aliases[0]))
        },
    }
}

impl RelayLookup {
    fn at(config: &DriadResolverConfig, walk: NameWalk) -> (lookup: Self)
        ensures
            lookup@ == relay_lookup_at(*config, walk@),
    {
        match walk.enter() {
            Err(error) => RelayLookup::Done(Err(error)),
            Ok(walk) => if config.resolvers.len() == 0 {
                RelayLookup::Done(Err(DriadError::NoResolvers))
            } else {
                RelayLookup::Asking(walk)
            },
        }
    }

    /// Starts to look up the relays under a name.
    pub fn start(config: &DriadResolverConfig, name: &str) -> (lookup: Self)
        ensures
            lookup@ == relay_lookup_at(*config, walk_start(encode_utf8(name@))),
    {
        Self::at(config, NameWalk::new(name))
    }

    /// Takes in the reply to the query that the lookup asked for.
    pub fn reply(self, config: &DriadResolverConfig, reply: DnsReply) -> (lookup: Self)
        ensures
            match self@ {
                RelayLookupModel::Asking(walk) => lookup@ == relay_lookup_after(
                    *config,
                    walk,
                    reply_model(reply),
                ),
                RelayLookupModel::Done(_) => lookup == self,
            },
    {
        let walk = match self {
            RelayLookup::Asking(walk) => walk,
            RelayLookup::Done(result) => return RelayLookup::Done(result),
        };
        let outcome = match reply {
            Ok((id, bytes)) => parse_dns_response(id, walk.current.as_str(), bytes.as_slice()),
            Err(error) => Err(error),
        };
        let response = match outcome {
            Ok(response) => response,
            Err(error) => {
                return match walk.place.next(config) {
                    Some(place) => RelayLookup::Asking(walk.again(place)),
                    None => RelayLookup::Done(Err(error)),
                };
            },
        };
        proof {
            assert(response@.records =~= record_models(response.records@));
            assert(response@.aliases.len() == response.aliases@.len());
        }
        if response.records.len() > 0 {
            let records = limit_records(response.records, walk.alias_ttl);
            return RelayLookup::Done(Ok(records));
        }
        let mut aliases = response.aliases;
        if aliases.len() == 0 {
            return RelayLookup::Done(Err(DriadError::NoRecords(walk.current)));
        }
        proof {
            assert(response@.aliases[0] == crate::dns::timed_name(aliases@[0]));
        }
        let alias = aliases.remove(0);
        Self::at(config, walk.follow(alias))
    }
}

fn limit_records(records: Vec<Timed<AmtRelayRecord>>, ttl: Duration) -> (limited: Vec<
    Timed<AmtRelayRecord>,
>)
    ensures
        record_models(limited@) == records_within(record_models(records@), ttl),
{
    let mut limited: Vec<Timed<AmtRelayRecord>> = Vec::new();
    let mut i: usize = 0;
    while i < records.len()
        invariant
            i <= records@.len(),
            record_models(limited@) == records_within(record_models(records@), ttl).take(i as int),
        decreases records@.len() - i,
    {
        let ghost before = limited@;
        let ghost all = records_within(record_models(records@), ttl);
        limited.push(
            Timed { value: records[i].value.clone(), ttl: records[i].ttl.min(ttl) },
        );
        proof {
            assert(all.take(i + 1) =~= all.take(i as int).push(all[i as int]));
            assert(all[i as int].value == records@[i as int].value@);
            assert(record_models(limited@) =~= record_models(before).push(limited@.last()@));
        }
        i += 1;
    }
    proof {
        let all = records_within(record_models(records@), ttl);
        assert(all.take(i as int) =~= all);
    }
    limited
}

/// A [`HostLookup`] with its names as UTF-8 bytes.
#[allow(inconsistent_fields)]
pub enum HostLookupModel {
    Asking(WalkModel, DriadErrorModel),
    Done(Result<Seq<Timed<IpAddr>>, DriadErrorModel>),
}

impl View for HostLookup {
    type V = HostLookupModel;

    open spec fn view(&self) -> HostLookupModel {
        match *self {
            HostLookup::Asking(walk, error) => HostLookupModel::Asking(walk@, error@),
            HostLookup::Done(Ok(addresses)) => HostLookupModel::Done(Ok(addresses@)),
            HostLookup::Done(Err(error)) => HostLookupModel::Done(Err(error@)),
        }
    }
}

/// A lookup of addresses that comes to a new name.
pub open spec fn host_lookup_at(config: DriadResolverConfig, walk: WalkModel) -> HostLookupModel {
    match walk_error(walk) {
        Some(error) => HostLookupModel::Done(Err(error)),
        None => if config.resolvers@.len() == 0 {
            HostLookupModel::Done(Err(DriadErrorModel::NoRecords(walk.current)))
        } else {
            HostLookupModel::Asking(walk_entered(walk), DriadErrorModel::NoRecords(walk.current))
        },
    }
}

/// Addresses none of which may be kept longer than the given span.
pub open spec fn addresses_within(addresses: Seq<Timed<IpAddr>>, ttl: Duration) -> Seq<
    Timed<IpAddr>,
> {
    addresses.map_values(
        |address: Timed<IpAddr>|
            Timed { value: address.value, ttl: address.ttl.min_spec(ttl) },
    )
}

/// A lookup of addresses that goes on to its next query, or ends with the last
/// failure.
pub open spec fn host_lookup_next(
    config: DriadResolverConfig,
    walk: WalkModel,
    failure: DriadErrorModel,
) -> HostLookupModel {
    match walk.place.next_spec(config) {
        Some(place) => HostLookupModel::Asking(WalkModel { place, ..walk }, failure),
        None => HostLookupModel::Done(Err(failure)),
    }
}

/// A lookup of addresses after the reply to its query.  Addresses end it, else
/// an alias is followed; a reply with neither, or one that cannot be read,
/// leads to the next query.
pub open spec fn host_lookup_after(
    config: DriadResolverConfig,
    query_type: u16,
    walk: WalkModel,
    failure: DriadErrorModel,
    reply: Result<(u16, Seq<u8>), DriadErrorModel>,
) -> HostLookupModel {
    let outcome = match reply {
        Ok((id, bytes)) => address_response(id, walk.current, query_type, bytes),
        Err(error) => Err(error),
    };
    match outcome {
        Err(error) => host_lookup_next(config, walk, error),
        Ok(response) => if response.addresses.len() > 0 {
            HostLookupModel::Done(Ok(addresses_within(response.addresses, walk.alias_ttl)))
        } else {
            match response.alias {
                Some(alias) => host_lookup_at(config, walk_to(walk, alias)),
                None => host_lookup_next(config, walk, failure),
            }
        },
    }
}

impl HostLookup {
    fn at(config: &DriadResolverConfig, walk: NameWalk) -> (lookup: Self)
        ensures
            lookup@ == host_lookup_at(*config, walk@),
    {
        match walk.enter() {
            Err(error) => HostLookup::Done(Err(error)),
            Ok(walk) => {
                let failure = DriadError::NoRecords(walk.current.clone());
                if config.resolvers.len() == 0 {
                    HostLookup::Done(Err(failure))
                } else {
                    HostLookup::Asking(walk, failure)
                }
            },
        }
    }

    fn next(config: &DriadResolverConfig, walk: NameWalk, failure: DriadError) -> (lookup: Self)
        ensures
            lookup@ == host_lookup_next(*config, walk@, failure@),
    {
        match walk.place.next(config) {
            Some(place) => HostLookup::Asking(walk.again(place), failure),
            None => HostLookup::Done(Err(failure)),
        }
    }

    /// Starts to look up the addresses under a name.
    pub fn start(config: &DriadResolverConfig, name: &str) -> (lookup: Self)
        ensures
            lookup@ == host_lookup_at(*config, walk_start(encode_utf8(name@))),
    {
        Self::at(config, NameWalk::new(name))
    }

    /// Takes in the reply to the query that the lookup asked for.
    pub fn reply(self, config: &DriadResolverConfig, query_type: u16, reply: DnsReply) -> (lookup:
        Self)
        ensures
            match self@ {
                HostLookupModel::Asking(walk, failure) => lookup@ == host_lookup_after(
                    *config,
                    query_type,
                    walk,
                    failure,
                    reply_model(reply),
                ),
                HostLookupModel::Done(_) => lookup == self,
            },
    {
        let (walk, failure) = match self {
            HostLookup::Asking(walk, failure) => (walk, failure),
            HostLookup::Done(result) => return HostLookup::Done(result),
        };
        let outcome = match reply {
            Ok((id, bytes)) => parse_address_response(
                id,
                walk.current.as_str(),
                query_type,
                bytes.as_slice(),
            ),
            Err(error) => Err(error),
        };
        let response = match outcome {
            Ok(response) => response,
            Err(error) => return Self::next(config, walk, error),
        };
        if response.addresses.len() > 0 {
            let addresses = limit_addresses(&response.addresses, walk.alias_ttl);
            return HostLookup::Done(Ok(addresses));
        }
        match response.alias {
            Some(alias) => Self::at(config, walk.follow(alias)),
            None => Self::next(config, walk, failure),
        }
    }
}

fn limit_addresses(addresses: &Vec<Timed<IpAddr>>, ttl: Duration) -> (limited: Vec<Timed<IpAddr>>)
    ensures
        limited@ == addresses_within(addresses@, ttl),
{
    let ghost all = addresses_within(addresses@, ttl);
    let mut limited: Vec<Timed<IpAddr>> = Vec::new();
    let mut i: usize = 0;
    while i < addresses.len()
        invariant
            i <= addresses@.len(),
            all == addresses_within(addresses@, ttl),
            limited@ == all.take(i as int),
        decreases addresses@.len() - i,
    {
        limited.push(Timed { value: addresses[i].value, ttl: addresses[i].ttl.min(ttl) });
        proof {
            assert(all.take(i + 1) =~= all.take(i as int).push(all[i as int]));
        }
        i += 1;
    }
    proof {
        assert(all.take(i as int) =~= all);
    }
    limited
}

/// Whether an address is among some.
pub open spec fn lists_address(addresses: Seq<Timed<IpAddr>>, address: IpAddr) -> bool {
    exists|i: int| 0 <= i < addresses.len() && (#[trigger] addresses[i]).value == address
}

/// Addresses with more behind them, each address once: its first entry stays.
pub open spec fn merged(addresses: Seq<Timed<IpAddr>>, more: Seq<Timed<IpAddr>>) -> Seq<
    Timed<IpAddr>,
>
    decreases more.len(),
{
    if more.len() == 0 {
        addresses
    } else {
        let front = merged(addresses, more.drop_last());
        if lists_address(front, more.last().value) {
            front
        } else {
            front.push(more.last())
        }
    }
}

/// The addresses that a lookup found, none where it failed.
pub open spec fn found_addresses(result: Result<Vec<Timed<IpAddr>>, DriadError>) -> Seq<
    Timed<IpAddr>,
> {
    match result {
        Ok(addresses) => addresses@,
        Err(_) => Seq::empty(),
    }
}

fn merge_into(addresses: &mut Vec<Timed<IpAddr>>, more: &Vec<Timed<IpAddr>>)
    ensures
        final(addresses)@ == merged(old(addresses)@, more@),
{
    let mut i: usize = 0;
    proof {
        assert(more@.take(0) =~= Seq::empty());
    }
    while i < more.len()
        invariant
            i <= more@.len(),
            addresses@ == merged(old(addresses)@, more@.take(i as int)),
        decreases more@.len() - i,
    {
        proof {
            assert(more@.take(i + 1).drop_last() =~= more@.take(i as int));
        }
        let next = Timed { value: more[i].value, ttl: more[i].ttl };
        if !contains_address(addresses, next.value) {
            addresses.push(next);
        }
        i += 1;
    }
    proof {
        assert(more@.take(i as int) =~= more@);
    }
}

fn contains_address(addresses: &Vec<Timed<IpAddr>>, address: IpAddr) -> (b: bool)
    ensures
        b == lists_address(addresses@, address),
{
    let mut i: usize = 0;
    while i < addresses.len()
        invariant
            i <= addresses@.len(),
            forall|k: int| 0 <= k < i ==> (#[trigger] addresses@[k]).value != address,
        decreases addresses@.len() - i,
    {
        if addresses[i].value == address {
            return true;
        }
        i += 1;
    }
    false
}

/// The addresses of a host, from the lookups of its IPv4 and its IPv6
/// addresses: failures count only where nothing was found.
pub fn lookup_host(
    ipv4: Result<Vec<Timed<IpAddr>>, DriadError>,
    ipv6: Result<Vec<Timed<IpAddr>>, DriadError>,
) -> (result: Result<Vec<Timed<IpAddr>>, DriadError>)
    ensures
        ({
            let all = merged(
                merged(Seq::empty(), found_addresses(ipv4)),
                found_addresses(ipv6),
            );
            match result {
                Ok(addresses) => addresses@ == all && all.len() > 0,
                Err(error) => error@ == DriadErrorModel::NoUsableRelay && all.len() == 0,
            }
        }),
{
    let mut addresses: Vec<Timed<IpAddr>> = Vec::new();
    proof {
        assert(addresses@ =~= Seq::empty());
    }
    if let Ok(found) = ipv4 {
        merge_into(&mut addresses, &found);
    }
    if let Ok(found) = ipv6 {
        merge_into(&mut addresses, &found);
    }
    if addresses.len() == 0 {
        Err(DriadError::NoUsableRelay)
    } else {
        Ok(addresses)
    }
}

/// Where a target's relays are, given what a lookup of its name found.
pub open spec fn target_addresses(
    target: TargetModel,
    found: Result<Seq<Timed<IpAddr>>, DriadErrorModel>,
) -> Result<Seq<Timed<SocketAddr>>, DriadErrorModel> {
    match target {
        TargetModel::NoRelay => Err(DriadErrorModel::NoRelayPresent),
        TargetModel::Ipv4(address) => Ok(
            seq![
                Timed {
                    value: SocketAddr::of(IpAddr::V4(address), AMT_PORT),
                    ttl: Duration::max_span(),
                },
            ],
        ),
        TargetModel::Ipv6(address) => Ok(
            seq![
                Timed {
                    value: SocketAddr::of(IpAddr::V6(address), AMT_PORT),
                    ttl: Duration::max_span(),
                },
            ],
        ),
        TargetModel::Name(_) => match found {
            Err(error) => Err(error),
            Ok(addresses) => if addresses.len() == 0 {
                Err(DriadErrorModel::NoUsableRelay)
            } else {
                Ok(on_amt_port(addresses))
            },
        },
    }
}

/// Addresses with the port of relays.
pub open spec fn on_amt_port(addresses: Seq<Timed<IpAddr>>) -> Seq<Timed<SocketAddr>> {
    addresses.map_values(
        |address: Timed<IpAddr>|
            Timed { value: SocketAddr::of(address.value, AMT_PORT), ttl: address.ttl },
    )
}

/// What a lookup of addresses found.
pub open spec fn found_model(found: Result<Vec<Timed<IpAddr>>, DriadError>) -> Result<
    Seq<Timed<IpAddr>>,
    DriadErrorModel,
> {
    match found {
        Ok(addresses) => Ok(addresses@),
        Err(error) => Err(error@),
    }
}

/// Where a target's relays are.  `found` is what a lookup of the target's name
/// found; a target that is no name does not need it.
pub fn relay_socket_addrs(
    target: &AmtRelayTarget,
    found: Result<Vec<Timed<IpAddr>>, DriadError>,
) -> (result: Result<Vec<Timed<SocketAddr>>, DriadError>)
    ensures
        match result {
            Ok(relays) => target_addresses(target@, found_model(found)) == Ok::<
                Seq<Timed<SocketAddr>>,
                DriadErrorModel,
            >(relays@),
            Err(error) => target_addresses(target@, found_model(found)) == Err::<
                Seq<Timed<SocketAddr>>,
                DriadErrorModel,
            >(error@),
        },
{
    let mut relays: Vec<Timed<SocketAddr>> = Vec::new();
    match target {
        AmtRelayTarget::NoRelay => Err(DriadError::NoRelayPresent),
        AmtRelayTarget::Ipv4(address) => {
            relays.push(
                Timed {
                    value: SocketAddr::new(IpAddr::V4(*address), AMT_PORT),
                    ttl: Duration::max_value(),
                },
            );
            proof {
                assert(relays@ =~= seq![relays@[0]]);
            }
            Ok(relays)
        },
        AmtRelayTarget::Ipv6(address) => {
            relays.push(
                Timed {
                    value: SocketAddr::new(IpAddr::V6(*address), AMT_PORT),
                    ttl: Duration::max_value(),
                },
            );
            proof {
                assert(relays@ =~= seq![relays@[0]]);
            }
            Ok(relays)
        },
        AmtRelayTarget::Name(_) => {
            let addresses = match found {
                Ok(addresses) => addresses,
                Err(error) => return Err(error),
            };
            let ghost all = on_amt_port(addresses@);
            let mut i: usize = 0;
            while i < addresses.len()
                invariant
                    i <= addresses@.len(),
                    all == on_amt_port(addresses@),
                    relays@ == all.take(i as int),
                decreases addresses@.len() - i,
            {
                relays.push(
                    Timed {
                        value: SocketAddr::new(addresses[i].value, AMT_PORT),
                        ttl: addresses[i].ttl,
                    },
                );
                proof {
                    assert(all.take(i + 1) =~= all.take(i as int).push(all[i as int]));
                }
                i += 1;
            }
            proof {
                assert(all.take(i as int) =~= all);
            }
            if relays.len() == 0 {
                Err(DriadError::NoUsableRelay)
            } else {
                Ok(relays)
            }
        },
    }
}

/// A search for the relays that may serve a source, among the records found for
/// it.
#[derive(Debug, PartialEq, Eq)]
pub struct CandidateSearch {
    pub source: IpAddr,
    pub query_name: String,
    pub maximum: usize,
    /// The records to go through, sorted by precedence.
    pub records: Vec<Timed<AmtRelayRecord>>,
    /// The record that is due.
    pub next: usize,
    pub selections: Vec<DriadRelaySelection>,
}

/// A [`CandidateSearch`] with its names as UTF-8 bytes.
#[verifier::ext_equal]
pub struct SearchModel {
    pub source: IpAddr,
    pub query_name: Seq<u8>,
    pub maximum: int,
    pub records: Seq<Timed<RelayRecordModel>>,
    pub next: int,
    pub selections: Seq<SelectionModel>,
}

impl View for CandidateSearch {
    type V = SearchModel;

    open spec fn view(&self) -> SearchModel {
        SearchModel {
            source: self.source,
            query_name: encode_utf8(self.query_name@),
            maximum: self.maximum as int,
            records: record_models(self.records@),
            next: self.next as int,
            selections: selection_models(self.selections@),
        }
    }
}

/// Whether some record says that there is no relay.
pub open spec fn denies_relays(records: Seq<Timed<RelayRecordModel>>) -> bool {
    exists|i: int| 0 <= i < records.len() && (#[trigger] records[i]).value.target is NoRelay
}

/// The first so many elements of a sequence, or all where it has fewer.
pub open spec fn at_most<T>(s: Seq<T>, count: int) -> Seq<T> {
    if s.len() <= count {
        s
    } else {
        s.take(count)
    }
}

/// The largest number of candidates, which is never zero.
pub open spec fn candidate_limit(config: DriadResolverConfig) -> int {
    if config.max_candidates == 0 {
        1
    } else {
        config.max_candidates as int
    }
}

/// Whether a relay is among some selections.
pub open spec fn lists_relay(selections: Seq<SelectionModel>, relay: SocketAddr) -> bool {
    exists|i: int| 0 <= i < selections.len() && (#[trigger] selections[i]).relay == relay
}

/// A search after a record's relays: those that can be reached and are not yet
/// selected join, as far as there is room.
pub open spec fn search_joined(
    search: SearchModel,
    record: Timed<RelayRecordModel>,
    relays: Seq<Timed<SocketAddr>>,
) -> Seq<SelectionModel>
    decreases relays.len(),
{
    if relays.len() == 0 {
        search.selections
    } else {
        let front = search_joined(search, record, relays.drop_last());
        let relay = relays.last();
        if front.len() >= search.maximum || !usable(relay.value.ip_spec()) || lists_relay(
            front,
            relay.value,
        ) {
            front
        } else {
            front.push(
                SelectionModel {
                    source: search.source,
                    query_name: search.query_name,
                    record: record.value,
                    relay: relay.value,
                    ttl: record.ttl.min_spec(relay.ttl),
                },
            )
        }
    }
}

/// The record that a search has to go through next, unless it is over.
pub open spec fn search_due(search: SearchModel) -> Option<Timed<RelayRecordModel>> {
    if search.next < search.records.len() && search.selections.len() < search.maximum {
        Some(search.records[search.next])
    } else {
        None
    }
}

impl CandidateSearch {
    /// Starts a search among records.
    pub fn start(
        config: &DriadResolverConfig,
        source: IpAddr,
        records: Vec<Timed<AmtRelayRecord>>,
    ) -> (result: Result<Self, DriadError>)
        ensures
            match result {
                Err(error) => denies_relays(record_models(records@)) && error@
                    == DriadErrorModel::NoRelayPresent,
                Ok(search) => !denies_relays(record_models(records@)) && search@ == (SearchModel {
                    source,
                    query_name: reverse_name(source),
                    maximum: candidate_limit(*config),
                    records: at_most(
                        records_below(record_models(records@), 256),
                        candidate_limit(*config),
                    ),
                    next: 0,
                    selections: Seq::empty(),
                }),
            },
    {
        let ghost models = record_models(records@);
        let mut i: usize = 0;
        while i < records.len()
            invariant
                i <= records@.len(),
                models == record_models(records@),
                forall|k: int| 0 <= k < i ==> !((#[trigger] models[k]).value.target is NoRelay),
            decreases records@.len() - i,
        {
            proof {
                assert(models[i as int] == records@[i as int]@);
            }
            if matches!(records[i].value.target, AmtRelayTarget::NoRelay) {
                proof {
                    assert(models[i as int].value.target is NoRelay);
                }
                return Err(DriadError::NoRelayPresent);
            }
            i += 1;
        }
        let maximum: usize = if config.max_candidates == 0 {
            1
        } else {
            config.max_candidates
        };
        let mut sorted = sort_records(&records);
        let ghost all = record_models(sorted@);
        if sorted.len() > maximum {
            sorted.truncate(maximum);
            proof {
                assert(record_models(sorted@) =~= all.take(maximum as int));
            }
        }
        let search = CandidateSearch {
            source,
            query_name: reverse_source_name(source),
            maximum,
            records: sorted,
            next: 0,
            selections: Vec::new(),
        };
        proof {
            assert(all.len() == sorted@.len() || sorted@.len() == maximum);
            assert(search@.selections =~= Seq::empty());
        }
        Ok(search)
    }

    /// The target whose relays have to be found next, unless the search is over.
    pub fn due(&self) -> (target: Option<&AmtRelayTarget>)
        ensures
            match target {
                Some(target) => search_due(self@) is Some && target@ == search_due(
                    self@,
                )->Some_0.value.target,
                None => search_due(self@) is None,
            },
    {
        if self.next < self.records.len() && self.selections.len() < self.maximum {
            proof {
                assert(self@.records[self.next as int] == self.records@[self.next as int]@);
            }
            Some(&self.records[self.next].value.target)
        } else {
            None
        }
    }

    fn has_relay(&self, relay: SocketAddr) -> (b: bool)
        ensures
            b == lists_relay(self@.selections, relay),
    {
        let mut i: usize = 0;
        while i < self.selections.len()
            invariant
                i <= self.selections@.len(),
                forall|k: int| 0 <= k < i ==> (#[trigger] self@.selections[k]).relay != relay,
            decreases self.selections@.len() - i,
        {
            proof {
                assert(self@.selections[i as int] == self.selections@[i as int]@);
            }
            if self.selections[i].relay == relay {
                return true;
            }
            i += 1;
        }
        false
    }

    /// Takes in the relays of the record that was due; where they were not
    /// found, the record is passed over.
    pub fn join(&mut self, relays: Result<Vec<Timed<SocketAddr>>, DriadError>)
        ensures
            match search_due(old(self)@) {
                None => *final(self) == *old(self),
                Some(record) => final(self)@ == (SearchModel {
                    next: old(self)@.next + 1,
                    selections: match relays {
                        Ok(relays) => search_joined(old(self)@, record, relays@),
                        Err(_) => old(self)@.selections,
                    },
                    ..old(self)@
                }),
            },
    {
        let at: usize = self.next;
        if at >= self.records.len() || self.selections.len() >= self.maximum {
            return;
        }
        let ghost record = self@.records[at as int];
        proof {
            assert(record == self.records@[at as int]@);
        }
        self.next = at + 1;
        let relays = match relays {
            Ok(relays) => relays,
            Err(_) => return,
        };
        let mut i: usize = 0;
        proof {
            assert(relays@.take(0) =~= Seq::empty());
        }
        while i < relays.len()
            invariant
                i <= relays@.len(),
                at < self.records@.len(),
                self.records == old(self).records,
                record == self.records@[at as int]@,
                self@ == (SearchModel {
                    next: at + 1,
                    selections: search_joined(old(self)@, record, relays@.take(i as int)),
                    ..old(self)@
                }),
            decreases relays@.len() - i,
        {
            let ghost before = self.selections@;
            proof {
                assert(relays@.take(i + 1).drop_last() =~= relays@.take(i as int));
            }
            let relay: SocketAddr = relays[i].value;
            if self.selections.len() < self.maximum && is_usable_relay_address(relay.ip())
                && !self.has_relay(relay) {
                let selection = DriadRelaySelection {
                    source: self.source,
                    query_name: self.query_name.clone(),
                    record: self.records[at].value.clone(),
                    relay,
                    ttl: self.records[at].ttl.min(relays[i].ttl),
                };
                self.selections.push(selection);
                proof {
                    assert(self@.selections =~= selection_models(before).push(selection@));
                }
            }
            i += 1;
        }
        proof {
            assert(relays@.take(i as int) =~= relays@);
        }
    }

    /// The candidates found, in the order in which to try them.
    pub fn finish(&self) -> (result: Result<Vec<DriadRelaySelection>, DriadError>)
        ensures
            match result {
                Err(error) => self@.selections.len() == 0 && error@
                    == DriadErrorModel::NoUsableRelay,
                Ok(ordered) => self@.selections.len() > 0 && exists|seeds: Seq<u64>|
                    seeds.len() == 256 && selection_models(ordered@) == #[trigger] ordered_below(
                        self@.selections,
                        seeds,
                        256,
                    ),
            },
    {
        if self.selections.len() == 0 {
            Err(DriadError::NoUsableRelay)
        } else {
            Ok(order_relay_candidates(&self.selections))
        }
    }
}

/// Whether a walk has asked for at most so many names, for none of them twice,
/// and last for its current one.
pub open spec fn walk_is_sound(walk: WalkModel) -> bool {
    &&& 0 < walk.visited.len() <= MAX_ALIAS_DEPTH
    &&& walk.visited.no_duplicates()
    &&& walk.visited.last() == lowered(walk.current)
}

/// Whether a lookup of relays that goes on has asked for no name twice.
pub open spec fn relay_lookup_is_sound(lookup: RelayLookupModel) -> bool {
    lookup matches RelayLookupModel::Asking(walk) ==> walk_is_sound(walk)
}

/// Whether a lookup of addresses that goes on has asked for no name twice.
pub open spec fn host_lookup_is_sound(lookup: HostLookupModel) -> bool {
    lookup matches HostLookupModel::Asking(walk, _) ==> walk_is_sound(walk)
}

proof fn lemma_entered_is_sound(walk: WalkModel)
    requires
        walk_error(walk) is None,
        walk.visited.no_duplicates(),
    ensures
        walk_is_sound(walk_entered(walk)),
{
    let longer = walk_entered(walk).visited;
    assert forall|i: int, j: int| 0 <= i < j < longer.len() implies longer[i] != longer[j] by {
        if j == walk.visited.len() {
            assert(walk.visited.contains(walk.visited[i]));
        }
    }
}

/// Lookups do not run in circles: from their start on, and after every reply,
/// they have asked for at most eight names and for none twice.
pub proof fn law_lookups_do_not_run_in_circles(
    config: DriadResolverConfig,
    name: Seq<u8>,
    query_type: u16,
    walk: WalkModel,
    failure: DriadErrorModel,
    reply: Result<(u16, Seq<u8>), DriadErrorModel>,
)
    requires
        walk_is_sound(walk),
    ensures
        relay_lookup_is_sound(relay_lookup_at(config, walk_start(name))),
        relay_lookup_is_sound(relay_lookup_after(config, walk, reply)),
        host_lookup_is_sound(host_lookup_at(config, walk_start(name))),
        host_lookup_is_sound(host_lookup_after(config, query_type, walk, failure, reply)),
{
    if walk_error(walk_start(name)) is None {
        lemma_entered_is_sound(walk_start(name));
    }
    if let Ok((id, bytes)) = reply {
        if let Ok(response) = relay_response(id, walk.current, bytes) {
            if response.aliases.len() > 0 {
                let next = walk_to(walk, response.aliases[0]);
                if walk_error(next) is None {
                    lemma_entered_is_sound(next);
                }
            }
        }
        if let Ok(response) = address_response(id, walk.current, query_type, bytes) {
            if let Some(alias) = response.alias {
                let next = walk_to(walk, alias);
                if walk_error(next) is None {
                    lemma_entered_is_sound(next);
                }
            }
        }
    }
}

/// Whether selections are relays that can be reached, none twice, and no more
/// than there is room for.
pub open spec fn selections_are_sound(selections: Seq<SelectionModel>, maximum: int) -> bool {
    &&& selections.len() <= maximum
    &&& forall|i: int| 0 <= i < selections.len() ==> usable((#[trigger] selections[i]).relay.ip_spec())
    &&& forall|i: int, j: int|
        0 <= i < j < selections.len() ==> (#[trigger] selections[i]).relay != (
        #[trigger] selections[j]).relay
}

/// A search selects only relays that can be reached, none twice, and no more
/// than the limit.
pub proof fn law_selections_are_usable_and_distinct(
    search: SearchModel,
    record: Timed<RelayRecordModel>,
    relays: Seq<Timed<SocketAddr>>,
)
    requires
        selections_are_sound(search.selections, search.maximum),
    ensures
        selections_are_sound(search_joined(search, record, relays), search.maximum),
    decreases relays.len(),
{
    if relays.len() > 0 {
        law_selections_are_usable_and_distinct(search, record, relays.drop_last());
    }
}

/// A random number for a query.
pub fn random_dns_id() -> (result: Result<u16, DriadError>)
    ensures
        result matches Err(error) ==> error is Randomness,
{
    match random_u16() {
        Ok(id) => Ok(id),
        Err(error) => Err(DriadError::Randomness(error.message)),
    }
}

/// A query for a name, under a random number.
pub fn new_query(name: &str, query_type: u16) -> (result: Result<(u16, Vec<u8>), DriadError>)
    ensures
        match result {
            Ok((id, query)) => name_fits(encode_utf8(name@)) && query@ == query_wire(
                id,
                encode_utf8(name@),
                query_type,
            ),
            Err(error) => error is Randomness || (!name_fits(encode_utf8(name@)) && error@
                == DriadErrorModel::InvalidDnsName(trimmed(encode_utf8(name@)))),
        },
{
    let id: u16 = match random_dns_id() {
        Ok(id) => id,
        Err(error) => return Err(error),
    };
    match build_dns_query(id, name, query_type) {
        Ok(query) => Ok((id, query)),
        Err(error) => Err(error),
    }
}

impl DriadResolver {
    /// Starts to look up the relays for a source.
    pub fn begin_lookup(&self, source: IpAddr) -> (result: Result<RelayLookup, DriadError>)
        ensures
            match result {
                Ok(lookup) => config_error(self.config) is None && lookup@ == relay_lookup_at(
                    self.config,
                    walk_start(reverse_name(source)),
                ),
                Err(error) => config_error(self.config) == Some(error@),
            },
    {
        match self.validate() {
            Ok(()) => Ok(
                RelayLookup::start(&self.config, reverse_source_name(source).as_str()),
            ),
            Err(error) => Err(error),
        }
    }
}

/// Whether a selection goes back to a record and one of its relays, and may be
/// kept no longer than either.
pub open spec fn comes_from(
    selection: SelectionModel,
    record: Timed<RelayRecordModel>,
    relays: Seq<Timed<SocketAddr>>,
) -> bool {
    &&& selection.record == record.value
    &&& selection.ttl.nanos <= record.ttl.nanos
    &&& exists|k: int|
        0 <= k < relays.len() && (#[trigger] relays[k]).value == selection.relay
            && selection.ttl.nanos <= relays[k].ttl.nanos
}

/// A relay that joins a search may be kept no longer than the record and the
/// address that led to it; relays that were selected before stay.
pub proof fn law_selections_expire_with_what_led_to_them(
    search: SearchModel,
    record: Timed<RelayRecordModel>,
    relays: Seq<Timed<SocketAddr>>,
    i: int,
)
    requires
        0 <= i < search_joined(search, record, relays).len(),
    ensures
        search_joined(search, record, relays).len() >= search.selections.len(),
        i < search.selections.len() ==> search_joined(search, record, relays)[i]
            == search.selections[i],
        i >= search.selections.len() ==> comes_from(
            search_joined(search, record, relays)[i],
            record,
            relays,
        ),
    decreases relays.len(),
{
    if relays.len() > 0 {
        let front = relays.drop_last();
        let before = search_joined(search, record, front);
        let after = search_joined(search, record, relays);
        if before.len() > 0 {
            law_selections_expire_with_what_led_to_them(search, record, front, 0);
        } else {
            lemma_joined_grows(search, record, front);
        }
        if i < before.len() {
            law_selections_expire_with_what_led_to_them(search, record, front, i);
            assert(after[i] == before[i]);
            if i >= search.selections.len() {
                let k = choose|k: int|
                    0 <= k < front.len() && (#[trigger] front[k]).value == before[i].relay
                        && before[i].ttl.nanos <= front[k].ttl.nanos;
                assert(relays[k] == front[k]);
            }
        } else {
            assert(relays[relays.len() - 1] == relays.last());
        }
    }
}

proof fn lemma_joined_grows(
    search: SearchModel,
    record: Timed<RelayRecordModel>,
    relays: Seq<Timed<SocketAddr>>,
)
    ensures
        search_joined(search, record, relays).len() >= search.selections.len(),
    decreases relays.len(),
{
    if relays.len() > 0 {
        lemma_joined_grows(search, record, relays.drop_last());
    }
}

/// Which addresses a relay can be reached under: of IPv4 all but 0.0.0.0,
/// 255.255.255.255 and groups, of IPv6 all but ::, groups and link-local ones.
pub proof fn law_usable_addresses_are_known_by_their_bits(address: IpAddr)
    ensures
        match address {
            IpAddr::V4(a) => usable(address) <==> a.bits != 0 && a.bits != 0xffff_ffff && a.bits
                / 0x1000_0000 != 14,
            IpAddr::V6(a) => {
                let head = a.bits as int / 0x1_0000_0000_0000_0000_0000_0000_0000;
                usable(address) <==> a.bits != 0 && head / 0x100 != 0xff && head / 0x40 != 0x3fa
            },
        },
{
}

/// Every resolver is asked in every attempt: the places of a lookup follow one
/// another through all resolvers, attempt by attempt, and end with the last one
/// of the last attempt.
pub proof fn law_every_resolver_is_asked(config: DriadResolverConfig, place: QueryPlace)
    requires
        place.index < config.resolvers@.len(),
        place.attempt < config.attempts,
    ensures
        ({
            let count = config.resolvers@.len() as int;
            let number = place.attempt * count + place.index;
            match place.next_spec(config) {
                Some(next) => next.index < count && next.attempt < config.attempts && next.attempt
                    * count + next.index == number + 1,
                None => number + 1 == config.attempts * count,
            }
        }),
        QueryPlace::first_spec().attempt == 0 && QueryPlace::first_spec().index == 0,
{
    let count = config.resolvers@.len() as int;
    assert(count == config.resolvers.len());
    assert((place.attempt + 1) * count == place.attempt * count + count) by (nonlinear_arith);
    assert(0 * count == 0);
    if place.next_spec(config) is None {
        assert(place.attempt + 1 == config.attempts);
        assert(config.attempts * count == (place.attempt + 1) * count);
    }
}

/// What a reply to a query for relays leads to.  A failure leads to the next
/// place to ask, and ends the lookup at the last one.  Relays end it; none of
/// them may be kept longer than itself or any alias that led to it.  Without
/// relays the first alias is followed, and without that there are no records.
pub proof fn law_replies_about_relays_are_followed(
    config: DriadResolverConfig,
    walk: WalkModel,
    id: u16,
    bytes: Seq<u8>,
)
    ensures
        ({
            let after = relay_lookup_after(
                config,
                walk,
                Ok::<(u16, Seq<u8>), DriadErrorModel>((id, bytes)),
            );
            match relay_response(id, walk.current, bytes) {
                Err(error) => match walk.place.next_spec(config) {
                    Some(place) => after == RelayLookupModel::Asking(WalkModel { place, ..walk }),
                    None => after == RelayLookupModel::Done(
                        Err::<Seq<Timed<RelayRecordModel>>, DriadErrorModel>(error),
                    ),
                },
                Ok(response) => if response.records.len() > 0 {
                    after matches RelayLookupModel::Done(Ok(records)) && records.len()
                        == response.records.len() && forall|i: int|
                        0 <= i < records.len() ==> {
                            &&& (#[trigger] records[i]).value == response.records[i].value
                            &&& records[i].ttl.nanos == if response.records[i].ttl.nanos
                                <= walk.alias_ttl.nanos {
                                response.records[i].ttl.nanos
                            } else {
                                walk.alias_ttl.nanos
                            }
                        }
                } else if response.aliases.len() > 0 {
                    let alias = response.aliases[0];
                    &&& after matches RelayLookupModel::Asking(next) ==> {
                        &&& next.current == alias.value && next.origin == walk.origin
                        &&& next.alias_ttl.nanos == if alias.ttl.nanos <= walk.alias_ttl.nanos {
                            alias.ttl.nanos
                        } else {
                            walk.alias_ttl.nanos
                        }
                        &&& next.place.attempt == 0 && next.place.index == 0
                        &&& next.visited == walk.visited.push(lowered(alias.value))
                    }
                    &&& walk.visited.len() < 8 && !walk.visited.contains(lowered(alias.value))
                        && config.resolvers@.len() > 0 ==> after is Asking
                    &&& walk.visited.len() >= 8 || walk.visited.contains(lowered(alias.value))
                        ==> (after matches RelayLookupModel::Done(Err(_)))
                } else {
                    after == RelayLookupModel::Done(
                        Err::<Seq<Timed<RelayRecordModel>>, DriadErrorModel>(
                            DriadErrorModel::NoRecords(walk.current),
                        ),
                    )
                },
            }
        }),
{
}

/// What a reply to a query for addresses leads to: addresses end the lookup, none
/// to be kept longer than itself or any alias that led to it; without them an
/// alias is followed, and without that, or after a failure, the next place is
/// asked.
pub proof fn law_replies_about_addresses_are_followed(
    config: DriadResolverConfig,
    query_type: u16,
    walk: WalkModel,
    failure: DriadErrorModel,
    id: u16,
    bytes: Seq<u8>,
)
    ensures
        ({
            let after = host_lookup_after(
                config,
                query_type,
                walk,
                failure,
                Ok::<(u16, Seq<u8>), DriadErrorModel>((id, bytes)),
            );
            let read = address_response(id, walk.current, query_type, bytes);
            let found = read is Ok && read->Ok_0.addresses.len() > 0;
            let aliased = read is Ok && !found && read->Ok_0.alias is Some;
            &&& found ==> (after matches HostLookupModel::Done(Ok(addresses)) && addresses.len()
                == read->Ok_0.addresses.len() && forall|i: int|
                0 <= i < addresses.len() ==> {
                    &&& (#[trigger] addresses[i]).value == read->Ok_0.addresses[i].value
                    &&& addresses[i].ttl.nanos == if read->Ok_0.addresses[i].ttl.nanos
                        <= walk.alias_ttl.nanos {
                        read->Ok_0.addresses[i].ttl.nanos
                    } else {
                        walk.alias_ttl.nanos
                    }
                })
            &&& aliased && after is Asking ==> (after matches HostLookupModel::Asking(next, _)
                && next.current == read->Ok_0.alias->Some_0.value && next.alias_ttl.nanos
                <= walk.alias_ttl.nanos && next.alias_ttl.nanos
                <= read->Ok_0.alias->Some_0.ttl.nanos)
            &&& !found && !aliased ==> match walk.place.next_spec(config) {
                Some(place) => after matches HostLookupModel::Asking(next, _) && next
                    == (WalkModel { place, ..walk }),
                None => after matches HostLookupModel::Done(Err(_)),
            }
        }),
{
}

/// Merging addresses loses none, repeats none, and leaves the first entries where
/// they are.
pub proof fn law_merged_addresses_are_each_there_once(
    addresses: Seq<Timed<IpAddr>>,
    more: Seq<Timed<IpAddr>>,
    address: IpAddr,
)
    ensures
        lists_address(merged(addresses, more), address) <==> lists_address(addresses, address)
            || lists_address(more, address),
        addresses.is_prefix_of(merged(addresses, more)),
        forall|i: int, j: int|
            addresses.len() <= j < merged(addresses, more).len() && 0 <= i < j ==> (
            #[trigger] merged(addresses, more)[i]).value != (
            #[trigger] merged(addresses, more)[j]).value,
    decreases more.len(),
{
    let after = merged(addresses, more);
    if more.len() > 0 {
        let front = more.drop_last();
        let before = merged(addresses, front);
        law_merged_addresses_are_each_there_once(addresses, front, address);
        assert(more[more.len() - 1] == more.last());
        if lists_address(front, address) {
            let i = choose|i: int| 0 <= i < front.len() && (#[trigger] front[i]).value == address;
            assert(more[i].value == address);
        }
        if lists_address(more, address) && more.last().value != address {
            let i = choose|i: int| 0 <= i < more.len() && (#[trigger] more[i]).value == address;
            assert(front[i].value == address);
        }
        if lists_address(before, address) {
            let i = choose|i: int| 0 <= i < before.len() && (#[trigger] before[i]).value == address;
            assert(after[i].value == address);
        }
        if lists_address(after, address) && !lists_address(before, address) {
            let i = choose|i: int| 0 <= i < after.len() && (#[trigger] after[i]).value == address;
            if i < before.len() {
                assert(before[i].value == address);
            }
        }
        if after.len() > before.len() {
            assert(after[before.len() as int] == more.last());
            assert forall|i: int, j: int|
                addresses.len() <= j < after.len() && 0 <= i < j implies (
            #[trigger] after[i]).value != (#[trigger] after[j]).value by {
                if j < before.len() {
                    assert(before[i].value != before[j].value);
                } else if after[i].value == after[j].value {
                    assert(before[i].value == more.last().value);
                }
            }
        }
    } else {
        assert(more.len() == 0);
    }
}

/// Where the relays of a target are: at the address in the record, or at those
/// that its name was found to have, always at port 2268; a record may also say
/// that there is none.
pub proof fn law_targets_are_at_the_amt_port(
    target: TargetModel,
    found: Result<Seq<Timed<IpAddr>>, DriadErrorModel>,
)
    ensures
        ({
            let said = target_addresses(target, found);
            match target {
                TargetModel::NoRelay => said == Err::<Seq<Timed<SocketAddr>>, DriadErrorModel>(
                    DriadErrorModel::NoRelayPresent,
                ),
                TargetModel::Ipv4(address) => said matches Ok(relays) && relays.len() == 1
                    && relays[0].value.ip_spec() == IpAddr::V4(address)
                    && relays[0].value.port_spec() == 2268,
                TargetModel::Ipv6(address) => said matches Ok(relays) && relays.len() == 1
                    && relays[0].value.ip_spec() == IpAddr::V6(address)
                    && relays[0].value.port_spec() == 2268,
                TargetModel::Name(_) => match found {
                    Err(error) => said == Err::<Seq<Timed<SocketAddr>>, DriadErrorModel>(error),
                    Ok(addresses) => if addresses.len() == 0 {
                        said is Err
                    } else {
                        said matches Ok(relays) && relays.len() == addresses.len() && forall|i: int|
                            0 <= i < relays.len() ==> {
                                &&& (#[trigger] relays[i]).value.ip_spec() == addresses[i].value
                                &&& relays[i].value.port_spec() == 2268
                                &&& relays[i].ttl == addresses[i].ttl
                            }
                    },
                },
            }
        }),
{
}

/// No relay is passed over: one that can be reached is selected, unless the
/// search is full or has it already.
pub proof fn law_usable_relays_are_selected(
    search: SearchModel,
    record: Timed<RelayRecordModel>,
    relays: Seq<Timed<SocketAddr>>,
    i: int,
)
    requires
        0 <= i < relays.len(),
        usable(relays[i].value.ip_spec()),
    ensures
        lists_relay(search_joined(search, record, relays), relays[i].value) || search_joined(
            search,
            record,
            relays,
        ).len() >= search.maximum,
    decreases relays.len(),
{
    let front = relays.drop_last();
    let before = search_joined(search, record, front);
    let after = search_joined(search, record, relays);
    if i < front.len() {
        law_usable_relays_are_selected(search, record, front, i);
        assert(front[i] == relays[i]);
        if lists_relay(before, relays[i].value) {
            let k = choose|k: int|
                0 <= k < before.len() && (#[trigger] before[k]).relay == relays[i].value;
            assert(after[k].relay == relays[i].value);
        }
    } else if after.len() > before.len() {
        assert(after[before.len() as int].relay == relays[i].value);
    }
}

/// A walk along aliases ends at a name that it met before, in whatever case, and
/// after eight names; else it goes on, and remembers the name it asks for.
pub proof fn law_walks_come_to_an_end(walk: WalkModel, k: int)
    ensures
        walk.visited.len() >= 8 ==> walk_error(walk) == Some(
            DriadErrorModel::AliasDepthExceeded(walk.origin),
        ),
        walk.visited.len() < 8 && 0 <= k < walk.visited.len() && walk.visited[k] == lowered(
            walk.current,
        ) ==> walk_error(walk) == Some(DriadErrorModel::AliasLoop(walk.current)),
        walk.visited.len() < 8 && (forall|i: int|
            0 <= i < walk.visited.len() ==> (#[trigger] walk.visited[i]) != lowered(walk.current))
            ==> walk_error(walk) is None,
        walk_entered(walk).visited.len() == walk.visited.len() + 1,
        walk_entered(walk).visited.last() == lowered(walk.current),
        walk_entered(walk).visited.drop_last() == walk.visited,
        walk_entered(walk).current == walk.current && walk_entered(walk).origin == walk.origin,
{
    assert(walk_entered(walk).visited.drop_last() =~= walk.visited);
    if 0 <= k < walk.visited.len() && walk.visited[k] == lowered(walk.current) {
        assert(walk.visited.contains(lowered(walk.current)));
    }
}

/// An alias leads to its own name, which lasts no longer than the alias or those
/// before it; the first resolver is asked about it.
pub proof fn law_aliases_are_followed(walk: WalkModel, alias: Timed<Seq<u8>>)
    ensures
        ({
            let next = walk_to(walk, alias);
            &&& next.current == alias.value
            &&& next.visited == walk.visited && next.origin == walk.origin
            &&& alias.ttl.nanos <= walk.alias_ttl.nanos ==> next.alias_ttl == alias.ttl
            &&& alias.ttl.nanos >= walk.alias_ttl.nanos ==> next.alias_ttl.nanos
                == walk.alias_ttl.nanos
            &&& next.place == QueryPlace::first_spec()
        }),
{
}

} // verus!
