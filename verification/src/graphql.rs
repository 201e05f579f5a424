use json::number::Number;
use json::JsonValue;
use vstd::prelude::*;
use vstd::string::StringSliceAdditionalSpecFns;

use crate::startgg::{TournamentSet, TournamentSetStanding, UserStruct};
use crate::startgg_ignores::{corrected_set, IgnoredSet};
use crate::selection::{lemma_select_next, lemma_selects_nothing, selects_in_order};
use crate::text::text_equals;

verus! {

/// A parsed JSON document of the `json` crate. Verus sees nothing inside it;
/// what is read from it goes through the functions below.
#[verifier::external_type_specification]
#[verifier::external_body]
pub struct ExJsonValue(JsonValue);

/// The error that `json::parse` reports for text that is not JSON.
#[verifier::external_type_specification]
#[verifier::external_body]
pub struct ExJsonError(json::Error);

/// A JSON number of the `json` crate: sign, decimal mantissa and decimal exponent.
#[verifier::external_type_specification]
#[verifier::external_body]
pub struct ExJsonNumber(Number);

/// The document that `json::parse` reads from a text, `None` where it reports an error.
pub uninterp spec fn json_parsed(text: Seq<char>) -> Option<JsonValue>;

/// `v[key]`: the member named `key` of an object, `Null` otherwise.
pub uninterp spec fn json_field(v: JsonValue, key: Seq<char>) -> JsonValue;

/// `v[index]`: the element at `index` of an array, `Null` otherwise.
pub uninterp spec fn json_entry(v: JsonValue, index: int) -> JsonValue;

/// The number of elements that `v.members()` walks: an array's length, 0 for anything else.
pub uninterp spec fn json_member_count(v: JsonValue) -> nat;

/// `v.as_number()`: the number a document holds, `None` for anything but a number.
pub uninterp spec fn json_number(v: JsonValue) -> Option<Number>;

/// `n.as_parts()`: whether the sign is positive, the mantissa, the decimal exponent.
pub uninterp spec fn json_number_parts(n: Number) -> (bool, u64, i16);

/// The `i64` that a number's parts give as `i64::try_from` of the `json`
/// crate computes it: none unless the exponent is 0; else the mantissa cast
/// to `i64` (so a mantissa from 2^63 on wraps to a negative value), negated
/// for a negative sign. A negative mantissa of 2^63 is -2^63.
pub open spec fn int_of_parts(parts: (bool, u64, i16)) -> Option<i64> {
    let (positive, mantissa, exponent) = parts;
    if exponent != 0 {
        None
    } else if positive {
        Some(mantissa as i64)
    } else if mantissa as i64 == i64::MIN {
        Some(i64::MIN)
    } else {
        Some(-(mantissa as i64) as i64)
    }
}

/// `v.as_i64()`: the `i64` of a number as `int_of_parts` gives it, `None` for
/// anything but a number.
pub open spec fn json_int(v: JsonValue) -> Option<i64> {
    match json_number(v) {
        Some(n) => int_of_parts(json_number_parts(n)),
        None => None,
    }
}

/// `v.as_str()`: the text of a string, `None` for anything else.
pub uninterp spec fn json_text(v: JsonValue) -> Option<Seq<char>>;

/// The number of fraction digits from which `json::parse` can no longer
/// count the decimal exponent of a number: it keeps the exponent in an `i16`
/// and lowers it by one for each fraction digit read while the mantissa is
/// still 0, so `0.` followed by this many zeros takes it below `i16::MIN`.
pub const FRACTION_DIGIT_LIMIT: usize = 32769;

/// An ASCII digit.
pub open spec fn is_ascii_digit(c: u8) -> bool {
    48 <= c <= 57
}

/// At byte `p` of the text stands a `.` followed by at least
/// `FRACTION_DIGIT_LIMIT` digits.
pub open spec fn long_fraction_at(bytes: Seq<u8>, p: int) -> bool {
    &&& 0 <= p
    &&& p + FRACTION_DIGIT_LIMIT < bytes.len()
    &&& bytes[p] == 46
    &&& forall|j: int| p < j <= p + FRACTION_DIGIT_LIMIT ==> is_ascii_digit(#[trigger] bytes[j])
}

/// Somewhere in the text a `.` is followed by at least `FRACTION_DIGIT_LIMIT` digits.
pub open spec fn has_long_fraction(bytes: Seq<u8>) -> bool {
    exists|p: int| #[trigger] long_fraction_at(bytes, p)
}

/// Calls `json::parse`. Claimed: it succeeds exactly when the named result is
/// a document, and then returns that document; which texts it accepts is not
/// stated. Texts with a run of `FRACTION_DIGIT_LIMIT` digits after a `.` are
/// left out: on `0.000…` of that length the parser's `i16` exponent overflows
/// (a panic in a debug build).
#[verifier::external_body]
fn parse_json(text: &str) -> (r: Result<JsonValue, json::Error>)
    requires
        !has_long_fraction(text.spec_bytes()),
    ensures
        r is Ok <==> json_parsed(text@) is Some,
        r matches Ok(v) ==> json_parsed(text@) == Some(v),
{
    json::parse(text)
}

/// Whether a `.` in the text is followed by at least `FRACTION_DIGIT_LIMIT`
/// digits: one pass that keeps the length of the run of digits that ends at
/// the current byte and whether a `.` stands before that run.
pub fn has_overlong_fraction(text: &str) -> (found: bool)
    ensures
        found == has_long_fraction(text.spec_bytes()),
{
    let bytes = text.as_bytes();
    let ghost bs = bytes@;
    let n = bytes.len();
    let mut i: usize = 0;
    let mut run: usize = 0;
    let mut dot: bool = false;
    while i < n
        invariant
            bs == bytes@,
            bs == text.spec_bytes(),
            n == bs.len(),
            0 <= run <= i <= n,
            forall|j: int| i - run <= j < i ==> is_ascii_digit(#[trigger] bs[j]),
            run < i ==> !is_ascii_digit(bs[i - run - 1]),
            dot == (run < i && bs[i - run - 1] == 46),
            forall|p: int| 0 <= p && p + FRACTION_DIGIT_LIMIT < i ==> !#[trigger] long_fraction_at(bs, p),
        decreases n - i,
    {
        let c = bytes[i];
        if 48 <= c && c <= 57 {
            run = run + 1;
        } else {
            run = 0;
            dot = c == 46;
        }
        let ghost p = i - FRACTION_DIGIT_LIMIT as int;
        i = i + 1;
        if dot && run == FRACTION_DIGIT_LIMIT {
            assert(long_fraction_at(bs, p));
            return true;
        }
        proof {
            if 0 <= p && long_fraction_at(bs, p) {
                let k = i - 1 - run;
                assert(is_ascii_digit(bs[i - 1]));
                if run < FRACTION_DIGIT_LIMIT {
                    assert(is_ascii_digit(bs[k]));
                } else if run > FRACTION_DIGIT_LIMIT {
                    assert(is_ascii_digit(bs[p]));
                }
            }
        }
    }
    assert(!has_long_fraction(bs));
    false
}

/// Calls `Index<&str>` of `JsonValue`: the member of that name, as named above.
#[verifier::external_body]
fn field<'a>(v: &'a JsonValue, key: &str) -> (r: &'a JsonValue)
    ensures
        *r == json_field(*v, key@),
{
    &v[key]
}

/// Calls `Index<usize>` of `JsonValue`: the element at that place, as named above.
#[verifier::external_body]
fn entry<'a>(v: &'a JsonValue, index: usize) -> (r: &'a JsonValue)
    ensures
        *r == json_entry(*v, index as int),
{
    &v[index]
}

/// Calls `JsonValue::members` and takes the length of the iterator: for an
/// array its length, else 0 (the source returns an empty iterator). The
/// members are the elements `v[0]`, `v[1]`, ... of the array.
#[verifier::external_body]
fn member_count(v: &JsonValue) -> (n: usize)
    ensures
        n as nat == json_member_count(*v),
{
    v.members().len()
}

/// Calls `JsonValue::as_number`, as named above.
#[verifier::external_body]
fn as_number(v: &JsonValue) -> (r: Option<Number>)
    ensures
        r == json_number(*v),
{
    v.as_number()
}

/// Calls `Number::as_parts`, as named above.
#[verifier::external_body]
fn number_parts(n: &Number) -> (r: (bool, u64, i16))
    ensures
        r == json_number_parts(*n),
{
    n.as_parts()
}

/// The `i64` a document holds, as `JsonValue::as_i64` reads it, except that a
/// negative mantissa of 2^63 gives -2^63 where the crate's negation overflows.
fn as_int(v: &JsonValue) -> (r: Option<i64>)
    ensures
        r == json_int(*v),
{
    match as_number(v) {
        Some(n) => {
            let (positive, mantissa, exponent) = number_parts(&n);
            if exponent != 0 {
                None
            } else if positive {
                Some(mantissa as i64)
            } else {
                let m = mantissa as i64;
                if m == i64::MIN {
                    Some(i64::MIN)
                } else {
                    Some(-m)
                }
            }
        },
        None => None,
    }
}

/// Calls `JsonValue::as_str`, as named above.
#[verifier::external_body]
fn as_text<'a>(v: &'a JsonValue) -> (r: Option<&'a str>)
    ensures
        match r {
            Some(s) => json_text(*v) == Some(s@),
            None => json_text(*v) is None,
        },
{
    v.as_str()
}

/// A start.gg response that is not JSON.
#[derive(Debug, Clone, Copy, PartialEq, Eq, Structural)]
pub enum ResponseError {
    Malformed,
}

/// Parses the body of a start.gg response. A text with a fraction of
/// `FRACTION_DIGIT_LIMIT` digits or more is refused as malformed before the
/// parser sees it.
pub fn parse_response(text: &str) -> (r: Result<JsonValue, ResponseError>)
    ensures
        match r {
            Ok(v) => !has_long_fraction(text.spec_bytes()) && json_parsed(text@) == Some(v),
            Err(e) => (has_long_fraction(text.spec_bytes()) || json_parsed(text@) is None) && e
                == ResponseError::Malformed,
        },
{
    if has_overlong_fraction(text) {
        return Err(ResponseError::Malformed);
    }
    match parse_json(text) {
        Ok(v) => Ok(v),
        Err(_) => Err(ResponseError::Malformed),
    }
}

// ----- tournaments -----

/// `data.tournaments.pageInfo.totalPages`.
pub open spec fn tournament_pages(v: JsonValue) -> Option<i64> {
    json_int(
        json_field(json_field(json_field(json_field(v, "data"@), "tournaments"@), "pageInfo"@), "totalPages"@),
    )
}

/// The number of pages of the tournament list; `None` when the response does not give it.
pub fn tournament_page_count(v: &JsonValue) -> (r: Option<i64>)
    ensures
        r == tournament_pages(*v),
{
    as_int(field(field(field(field(v, "data"), "tournaments"), "pageInfo"), "totalPages"))
}

/// `data.tournaments.nodes`.
pub open spec fn tournament_nodes(v: JsonValue) -> JsonValue {
    json_field(json_field(json_field(v, "data"@), "tournaments"@), "nodes"@)
}

/// Every listed tournament has a numeric id and a name.
pub open spec fn tournaments_listed(v: JsonValue) -> bool {
    let nodes = tournament_nodes(v);
    forall|i: int|
        0 <= i < json_member_count(nodes) ==> {
            &&& json_int(json_field(#[trigger] json_entry(nodes, i), "id"@)) is Some
            &&& json_text(json_field(json_entry(nodes, i), "name"@)) is Some
        }
}

/// The tournaments of a page of the list, in order, as (id, name); `None`
/// when one of them lacks its id or its name.
#[verifier::spinoff_prover]
pub fn tournament_list(v: &JsonValue) -> (r: Option<Vec<(i64, String)>>)
    ensures
        r is Some <==> tournaments_listed(*v),
        r matches Some(list) ==> {
            let nodes = tournament_nodes(*v);
            &&& list@.len() == json_member_count(nodes)
            &&& forall|i: int|
                0 <= i < list@.len() ==> #[trigger] list@[i].0 == json_int(
                    json_field(json_entry(nodes, i), "id"@),
                ).unwrap() && list@[i].1@ == json_text(json_field(json_entry(nodes, i), "name"@)).unwrap()
        },
{
    let nodes = field(field(field(v, "data"), "tournaments"), "nodes");
    let n = member_count(nodes);
    let mut list: Vec<(i64, String)> = Vec::new();
    let mut i: usize = 0;
    while i < n
        invariant
            0 <= i <= n,
            n == json_member_count(*nodes),
            *nodes == tournament_nodes(*v),
            list@.len() == i,
            forall|k: int|
                0 <= k < i ==> {
                    &&& json_int(json_field(#[trigger] json_entry(*nodes, k), "id"@)) is Some
                    &&& json_text(json_field(json_entry(*nodes, k), "name"@)) is Some
                },
            forall|k: int|
                0 <= k < i ==> #[trigger] list@[k].0 == json_int(
                    json_field(json_entry(*nodes, k), "id"@),
                ).unwrap() && list@[k].1@ == json_text(json_field(json_entry(*nodes, k), "name"@)).unwrap(),
        decreases n - i,
    {
        let node = entry(nodes, i);
        let id = as_int(field(node, "id"));
        let name = as_text(field(node, "name"));
        match (id, name) {
            (Some(id), Some(name)) => {
                list.push((id, name.to_owned()));
            },
            _ => {
                return None;
            },
        }
        i = i + 1;
    }
    Some(list)
}

// ----- events -----

/// `data.tournament.events`.
pub open spec fn event_nodes(v: JsonValue) -> JsonValue {
    json_field(json_field(json_field(v, "data"@), "tournament"@), "events"@)
}

/// Every event has a numeric id and a state text.
pub open spec fn events_listed(v: JsonValue) -> bool {
    let events = event_nodes(v);
    forall|i: int|
        0 <= i < json_member_count(events) ==> {
            &&& json_int(json_field(#[trigger] json_entry(events, i), "id"@)) is Some
            &&& json_text(json_field(json_entry(events, i), "state"@)) is Some
        }
}

/// The ids of the first `n` events whose state is `COMPLETED`, in order.
pub open spec fn completed_among(events: JsonValue, n: nat) -> Seq<i64>
    decreases n,
{
    if n == 0 {
        Seq::empty()
    } else {
        let rest = completed_among(events, (n - 1) as nat);
        let e = json_entry(events, n - 1);
        if json_text(json_field(e, "state"@)).unwrap() == "COMPLETED"@ {
            rest.push(json_int(json_field(e, "id"@)).unwrap())
        } else {
            rest
        }
    }
}

/// Whether the event at index `k` of a list has the state text `COMPLETED`.
pub open spec fn state_is_completed(events: JsonValue) -> spec_fn(int) -> bool {
    |k: int| json_text(json_field(json_entry(events, k), "state"@)) == Some("COMPLETED"@)
}

/// The id of the event at index `k` of a list.
pub open spec fn event_id_at(events: JsonValue) -> spec_fn(int) -> i64 {
    |k: int| json_int(json_field(json_entry(events, k), "id"@)).unwrap()
}

/// The completed events listed among the first `n` are exactly those whose
/// state text is `COMPLETED`, each by its id, in the list's order: an event
/// in any other state (`CREATED`, `ACTIVE`, ...) is never listed, and none
/// that is completed is left out.
pub proof fn law_only_completed_events_are_listed(events: JsonValue, n: nat) -> (idx: Seq<int>)
    requires
        forall|k: int| 0 <= k < n ==> json_text(json_field(#[trigger] json_entry(events, k), "state"@)) is Some,
    ensures
        selects_in_order(completed_among(events, n), n as int, state_is_completed(events), event_id_at(events), idx),
    decreases n,
{
    if n == 0 {
        lemma_selects_nothing(state_is_completed(events), event_id_at(events));
        Seq::empty()
    } else {
        let m = (n - 1) as nat;
        let prev = law_only_completed_events_are_listed(events, m);
        lemma_select_next(completed_among(events, m), m as int, state_is_completed(events), event_id_at(events), prev);
        assert(json_text(json_field(json_entry(events, m as int), "state"@)) is Some);
        if state_is_completed(events)(m as int) {
            prev.push(m as int)
        } else {
            prev
        }
    }
}

/// The ids of a tournament's completed events, in order; `None` when an event
/// lacks its id or its state.
pub fn completed_event_ids(v: &JsonValue) -> (r: Option<Vec<i64>>)
    ensures
        r is Some <==> events_listed(*v),
        r matches Some(ids) ==> ids@ == completed_among(event_nodes(*v), json_member_count(event_nodes(*v))),
{
    let events = field(field(field(v, "data"), "tournament"), "events");
    let n = member_count(events);
    let mut ids: Vec<i64> = Vec::new();
    let mut i: usize = 0;
    while i < n
        invariant
            0 <= i <= n,
            n == json_member_count(*events),
            *events == event_nodes(*v),
            forall|k: int|
                0 <= k < i ==> {
                    &&& json_int(json_field(#[trigger] json_entry(*events, k), "id"@)) is Some
                    &&& json_text(json_field(json_entry(*events, k), "state"@)) is Some
                },
            ids@ == completed_among(*events, i as nat),
        decreases n - i,
    {
        let event = entry(events, i);
        let id = match as_int(field(event, "id")) {
            Some(id) => id,
            None => {
                return None;
            },
        };
        let state = match as_text(field(event, "state")) {
            Some(state) => state,
            None => {
                return None;
            },
        };
        if text_equals(state, "COMPLETED") {
            ids.push(id);
        }
        i = i + 1;
    }
    Some(ids)
}

// ----- sets -----

/// `data.event.sets.pageInfo.totalPages`.
pub open spec fn set_pages(v: JsonValue) -> Option<i64> {
    json_int(
        json_field(
            json_field(json_field(json_field(json_field(v, "data"@), "event"@), "sets"@), "pageInfo"@),
            "totalPages"@,
        ),
    )
}

/// The number of pages of an event's sets; 0 when the response does not give it.
pub fn event_set_page_count(v: &JsonValue) -> (r: i64)
    ensures
        r == match set_pages(*v) {
            Some(p) => p,
            None => 0,
        },
{
    match as_int(field(field(field(field(field(v, "data"), "event"), "sets"), "pageInfo"), "totalPages")) {
        Some(p) => p,
        None => 0,
    }
}

/// `data.event.sets.nodes`.
pub open spec fn set_nodes(v: JsonValue) -> JsonValue {
    json_field(json_field(json_field(json_field(v, "data"@), "event"@), "sets"@), "nodes"@)
}

/// `slots[k].standing` of a set.
pub open spec fn slot_standing(node: JsonValue, k: int) -> JsonValue {
    json_field(json_entry(json_field(node, "slots"@), k), "standing"@)
}

/// `slots[k].standing.entrant.participants[0].user.id`.
pub open spec fn slot_user_id(node: JsonValue, k: int) -> Option<i64> {
    json_int(
        json_field(
            json_field(json_entry(json_field(json_field(slot_standing(node, k), "entrant"@), "participants"@), 0), "user"@),
            "id"@,
        ),
    )
}

/// `slots[k].standing.stats.score.value`; absent after a disqualification.
pub open spec fn slot_score(node: JsonValue, k: int) -> Option<i64> {
    json_int(json_field(json_field(json_field(slot_standing(node, k), "stats"@), "score"@), "value"@))
}

/// `slots[k].standing.placement`.
pub open spec fn slot_placement(node: JsonValue, k: int) -> Option<i64> {
    json_int(json_field(slot_standing(node, k), "placement"@))
}

/// Both players have a user id and a score.
pub open spec fn set_complete(node: JsonValue) -> bool {
    &&& slot_user_id(node, 0) is Some
    &&& slot_user_id(node, 1) is Some
    &&& slot_score(node, 0) is Some
    &&& slot_score(node, 1) is Some
}

/// A set node can be read: it has a numeric id, and when it is taken from
/// start.gg as it stands, both placements are numbers.
pub open spec fn set_node_readable(node: JsonValue) -> bool {
    match json_int(json_field(node, "id"@)) {
        Some(id) => corrected_set(id) is Some || !set_complete(node) || (slot_placement(node, 0) is Some
            && slot_placement(node, 1) is Some),
        None => false,
    }
}

/// The set that a node gives: the corrected result for a set start.gg reports
/// wrongly; nothing when a player lacks a user id or a score; else both sides
/// as listed, a side having won when its placement is 1.
pub open spec fn node_set(node: JsonValue) -> Option<TournamentSet> {
    let id = json_int(json_field(node, "id"@)).unwrap();
    if corrected_set(id) is Some {
        corrected_set(id)
    } else if set_complete(node) {
        Some(
            TournamentSet {
                standings: [
                    TournamentSetStanding {
                        id: slot_user_id(node, 0).unwrap(),
                        has_won: slot_placement(node, 0).unwrap() == 1,
                        score: slot_score(node, 0).unwrap(),
                    },
                    TournamentSetStanding {
                        id: slot_user_id(node, 1).unwrap(),
                        has_won: slot_placement(node, 1).unwrap() == 1,
                        score: slot_score(node, 1).unwrap(),
                    },
                ],
            },
        )
    } else {
        None
    }
}

/// The sets that the first `n` nodes give, in order.
pub open spec fn sets_among(nodes: JsonValue, n: nat) -> Seq<TournamentSet>
    decreases n,
{
    if n == 0 {
        Seq::empty()
    } else {
        let rest = sets_among(nodes, (n - 1) as nat);
        match node_set(json_entry(nodes, n - 1)) {
            Some(t) => rest.push(t),
            None => rest,
        }
    }
}

/// Every set node of the page can be read.
pub open spec fn sets_listed(v: JsonValue) -> bool {
    forall|i: int|
        0 <= i < json_member_count(set_nodes(v)) ==> set_node_readable(#[trigger] json_entry(set_nodes(v), i))
}

fn read_standing(node: &JsonValue, k: usize) -> (r: &JsonValue)
    ensures
        *r == slot_standing(*node, k as int),
{
    field(entry(field(node, "slots"), k), "standing")
}

fn read_user_id(node: &JsonValue, k: usize) -> (r: Option<i64>)
    ensures
        r == slot_user_id(*node, k as int),
{
    as_int(field(field(entry(field(field(read_standing(node, k), "entrant"), "participants"), 0), "user"), "id"))
}

fn read_score(node: &JsonValue, k: usize) -> (r: Option<i64>)
    ensures
        r == slot_score(*node, k as int),
{
    as_int(field(field(field(read_standing(node, k), "stats"), "score"), "value"))
}

fn read_placement(node: &JsonValue, k: usize) -> (r: Option<i64>)
    ensures
        r == slot_placement(*node, k as int),
{
    as_int(field(read_standing(node, k), "placement"))
}

/// The set of one node, as `node_set` says; `None` (outer) when the node cannot be read.
pub fn read_set_node(node: &JsonValue) -> (r: Option<Option<TournamentSet>>)
    ensures
        r is Some <==> set_node_readable(*node),
        r matches Some(t) ==> t == node_set(*node),
{
    let id = match as_int(field(node, "id")) {
        Some(id) => id,
        None => {
            return None;
        },
    };
    if let Some(corrected) = IgnoredSet::is_ignored_set(id) {
        return Some(Some(corrected));
    }
    let user0 = read_user_id(node, 0);
    let user1 = read_user_id(node, 1);
    let score0 = read_score(node, 0);
    let score1 = read_score(node, 1);
    match (user0, user1, score0, score1) {
        (Some(user0), Some(user1), Some(score0), Some(score1)) => {
            match (read_placement(node, 0), read_placement(node, 1)) {
                (Some(place0), Some(place1)) => {
                    Some(
                        Some(
                            TournamentSet {
                                standings: [
                                    TournamentSetStanding {
                                        id: user0,
                                        has_won: place0 == 1,
                                        score: score0,
                                    },
                                    TournamentSetStanding {
                                        id: user1,
                                        has_won: place1 == 1,
                                        score: score1,
                                    },
                                ],
                            },
                        ),
                    )
                },
                _ => None,
            }
        },
        _ => Some(None),
    }
}

/// The sets of one page of an event, in order; `None` when a set node cannot be read.
pub fn event_sets(v: &JsonValue) -> (r: Option<Vec<TournamentSet>>)
    ensures
        r is Some <==> sets_listed(*v),
        r matches Some(sets) ==> sets@ == sets_among(set_nodes(*v), json_member_count(set_nodes(*v))),
{
    let nodes = field(field(field(field(v, "data"), "event"), "sets"), "nodes");
    let n = member_count(nodes);
    let mut sets: Vec<TournamentSet> = Vec::new();
    let mut i: usize = 0;
    while i < n
        invariant
            0 <= i <= n,
            n == json_member_count(*nodes),
            *nodes == set_nodes(*v),
            forall|k: int| 0 <= k < i ==> set_node_readable(#[trigger] json_entry(*nodes, k)),
            sets@ == sets_among(*nodes, i as nat),
        decreases n - i,
    {
        match read_set_node(entry(nodes, i)) {
            Some(Some(t)) => {
                sets.push(t);
            },
            Some(None) => {},
            None => {
                return None;
            },
        }
        i = i + 1;
    }
    Some(sets)
}

// ----- users -----

/// `data.user`.
pub open spec fn user_node(v: JsonValue) -> JsonValue {
    json_field(json_field(v, "data"@), "user"@)
}

/// `data.user.player.gamerTag`.
pub open spec fn user_gamer_tag(v: JsonValue) -> Option<Seq<char>> {
    json_text(json_field(json_field(user_node(v), "player"@), "gamerTag"@))
}

/// `data.user.slug`, or `NONE`.
pub open spec fn user_slug(v: JsonValue) -> Seq<char> {
    match json_text(json_field(user_node(v), "slug"@)) {
        Some(s) => s,
        None => "NONE"@,
    }
}

/// `data.user.location.country`, or the empty text.
pub open spec fn user_country_text(v: JsonValue) -> Seq<char> {
    match json_text(json_field(json_field(user_node(v), "location"@), "country"@)) {
        Some(s) => s,
        None => ""@,
    }
}

/// The country a user gives, or the empty text when there is none.
pub fn user_country(v: &JsonValue) -> (r: String)
    ensures
        r@ == user_country_text(*v),
{
    match as_text(field(field(field(field(v, "data"), "user"), "location"), "country")) {
        Some(s) => s.to_owned(),
        None => "".to_owned(),
    }
}

/// The player's profile for `user_id` from a user query: gamer tag, slug
/// (`NONE` when missing) and the region given; `None` when there is no gamer tag.
pub fn read_user(user_id: i64, v: &JsonValue, region: Option<&'static str>) -> (r: Option<UserStruct>)
    ensures
        r is Some <==> user_gamer_tag(*v) is Some,
        r matches Some(u) ==> {
            &&& u.user_id == user_id
            &&& u.user_name@ == user_gamer_tag(*v).unwrap()
            &&& u.user_slug@ == user_slug(*v)
            &&& u.user_region == region
        },
{
    let user = field(field(v, "data"), "user");
    let name = match as_text(field(field(user, "player"), "gamerTag")) {
        Some(name) => name.to_owned(),
        None => {
            return None;
        },
    };
    let slug = match as_text(field(user, "slug")) {
        Some(s) => s.to_owned(),
        None => "NONE".to_owned(),
    };
    Some(UserStruct { user_id, user_name: name, user_slug: slug, user_region: region })
}

} // verus!
