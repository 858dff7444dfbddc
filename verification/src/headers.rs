use vstd::prelude::*;
use bytes::Bytes;
use http::header::{HeaderMap, HeaderName, HeaderValue};
use crate::buf::{bytes_contents, bytes_copy_from_slice};
use crate::code::hyper_code;

verus! {

/// `http::header::HeaderMap`, a multimap from header names to values.
#[verifier::external_type_specification]
#[verifier::external_body]
#[verifier::reject_recursive_types(T)]
pub struct ExHeaderMap<T>(HeaderMap<T>);

/// `http::header::HeaderName`, a header name in its canonical spelling.
#[verifier::external_type_specification]
#[verifier::external_body]
pub struct ExHeaderName(HeaderName);

/// `http::header::HeaderValue`, the bytes of one header value.
#[verifier::external_type_specification]
#[verifier::external_body]
pub struct ExHeaderValue(HeaderValue);

/// The bytes of a header name's canonical spelling (`HeaderName::as_str`).
pub uninterp spec fn name_text(name: HeaderName) -> Seq<u8>;

/// The bytes of a header value (`HeaderValue::as_bytes`).
pub uninterp spec fn value_bytes(value: HeaderValue) -> Seq<u8>;

/// What a map of header values holds: one group for each name, in the order
/// in which the names first came, each with its values in the order in which
/// they came.
pub uninterp spec fn value_groups(map: HeaderMap<HeaderValue>) -> Seq<(Seq<u8>, Seq<Seq<u8>>)>;

/// What a map of spellings holds, grouped and ordered as `value_groups` is.
pub uninterp spec fn casing_groups(map: HeaderMap<Bytes>) -> Seq<(Seq<u8>, Seq<Seq<u8>>)>;

/// A byte that may stand in a header name.
pub open spec fn is_name_byte(b: u8) -> bool {
    ||| 33 <= b <= 39
    ||| b == 42
    ||| b == 43
    ||| b == 45
    ||| b == 46
    ||| 48 <= b <= 57
    ||| 65 <= b <= 90
    ||| 94 <= b <= 122
    ||| b == 124
    ||| b == 126
}

/// The lower-case form of an ASCII letter; any other byte is kept.
pub open spec fn lower(b: u8) -> u8 {
    if 65 <= b <= 90 {
        (b + 32) as u8
    } else {
        b
    }
}

/// The canonical spelling of a header name: every letter in lower case.
pub open spec fn canonical(name: Seq<u8>) -> Seq<u8> {
    Seq::new(name.len(), |i: int| lower(name[i]))
}

/// The longest header name that is accepted, in bytes.
pub const MAX_HEADER_NAME_LEN: usize = 65535;

/// The grammar of a header name on the wire.
pub open spec fn is_header_name(name: Seq<u8>) -> bool {
    &&& 1 <= name.len() <= MAX_HEADER_NAME_LEN
    &&& forall|i: int| 0 <= i < name.len() ==> is_name_byte(#[trigger] name[i])
}

/// A byte that may stand in a header value.
pub open spec fn is_value_byte(b: u8) -> bool {
    (b >= 32 && b != 127) || b == 9
}

/// The grammar of a header value on the wire.
pub open spec fn is_header_value(value: Seq<u8>) -> bool {
    forall|i: int| 0 <= i < value.len() ==> is_value_byte(#[trigger] value[i])
}

/// A map that holds fewer names than this takes one more entry, whatever
/// the entry is: it refuses only where its table, of at most 32768 slots,
/// would have to grow, and with fewer names it never has to.
pub const ROOM: usize = 6554;

/// The index of the group that holds `name`, or the number of groups where
/// none does.
pub open spec fn index_of(groups: Seq<(Seq<u8>, Seq<Seq<u8>>)>, name: Seq<u8>) -> int
    decreases groups.len(),
{
    if groups.len() == 0 {
        0
    } else if groups[0].0 == name {
        0
    } else {
        1 + index_of(groups.drop_first(), name)
    }
}

/// The groups after `value` has taken the place of all that `name` had: the
/// group keeps its position, and a new name goes to the end.
pub open spec fn replaced(groups: Seq<(Seq<u8>, Seq<Seq<u8>>)>, name: Seq<u8>, value: Seq<u8>) -> Seq<
    (Seq<u8>, Seq<Seq<u8>>),
> {
    let i = index_of(groups, name);
    if i < groups.len() {
        groups.update(i, (name, seq![value]))
    } else {
        groups.push((name, seq![value]))
    }
}

/// The groups after `value` has been added behind all that `name` had; a new
/// name goes to the end.
pub open spec fn appended(groups: Seq<(Seq<u8>, Seq<Seq<u8>>)>, name: Seq<u8>, value: Seq<u8>) -> Seq<
    (Seq<u8>, Seq<Seq<u8>>),
> {
    let i = index_of(groups, name);
    if i < groups.len() {
        groups.update(i, (name, groups[i].1.push(value)))
    } else {
        groups.push((name, seq![value]))
    }
}

/// The values held under `name`, in order; none where the name is absent.
pub open spec fn held(groups: Seq<(Seq<u8>, Seq<Seq<u8>>)>, name: Seq<u8>) -> Seq<Seq<u8>> {
    let i = index_of(groups, name);
    if i < groups.len() {
        groups[i].1
    } else {
        Seq::empty()
    }
}

/// The groups with `list` as all that `name` holds; a new name goes to the
/// end.
pub open spec fn with_held(groups: Seq<(Seq<u8>, Seq<Seq<u8>>)>, name: Seq<u8>, list: Seq<Seq<u8>>) -> Seq<
    (Seq<u8>, Seq<Seq<u8>>),
> {
    let i = index_of(groups, name);
    if i < groups.len() {
        groups.update(i, (name, list))
    } else {
        groups.push((name, list))
    }
}

/// The spellings after those of `name` were filled up to `count` records
/// with the name itself, so that a later record stands at place `count`.
/// Spellings that have `count` records or more are left as they are.
pub open spec fn padded(casings: Seq<(Seq<u8>, Seq<Seq<u8>>)>, name: Seq<u8>, count: int) -> Seq<
    (Seq<u8>, Seq<Seq<u8>>),
> {
    let had = held(casings, name);
    if had.len() >= count {
        casings
    } else {
        with_held(casings, name, had + Seq::new((count - had.len()) as nat, |j: int| name))
    }
}

/// No two groups hold the same name.
pub open spec fn distinct_names(groups: Seq<(Seq<u8>, Seq<Seq<u8>>)>) -> bool {
    forall|i: int, j: int|
        0 <= i < groups.len() && 0 <= j < groups.len() && i != j ==> (#[trigger] groups[i]).0 != (
        #[trigger] groups[j]).0
}

/// `HeaderName::from_bytes`: accepts exactly the names of the grammar, and
/// gives the name in its canonical spelling.
#[verifier::external_body]
fn header_name_from_bytes(src: &[u8]) -> (r: Option<HeaderName>)
    ensures
        r.is_some() == is_header_name(src@),
        r matches Some(name) ==> name_text(name) == canonical(src@),
{
    HeaderName::from_bytes(src).ok()
}

/// `HeaderValue::from_bytes`: accepts exactly the values of the grammar, and
/// keeps their bytes.
#[verifier::external_body]
fn header_value_from_bytes(src: &[u8]) -> (r: Option<HeaderValue>)
    ensures
        r.is_some() == is_header_value(src@),
        r matches Some(value) ==> value_bytes(value) == src@,
{
    HeaderValue::from_bytes(src).ok()
}

/// `HeaderMap::new`: a map that holds nothing.
#[verifier::external_body]
fn values_new() -> (r: HeaderMap<HeaderValue>)
    ensures
        value_groups(r) == Seq::<(Seq<u8>, Seq<Seq<u8>>)>::empty(),
{
    HeaderMap::new()
}

/// `HeaderMap::try_insert`: where it succeeds, `value` has taken the place
/// of all that the name had; where the map cannot grow, nothing changes. It
/// succeeds on every map that holds fewer than `ROOM` names.
#[verifier::external_body]
fn values_try_insert(map: &mut HeaderMap<HeaderValue>, name: &HeaderName, value: HeaderValue) -> (stored: bool)
    ensures
        value_groups(*old(map)).len() < ROOM ==> stored,
        stored ==> value_groups(*final(map)) == replaced(
            value_groups(*old(map)),
            name_text(*name),
            value_bytes(value),
        ),
        !stored ==> value_groups(*final(map)) == value_groups(*old(map)),
{
    map.try_insert(name, value).is_ok()
}

/// `HeaderMap::try_append`: where it succeeds, `value` stands behind all
/// that the name had; where the map cannot grow, nothing changes. It
/// succeeds on every map that holds fewer than `ROOM` names.
#[verifier::external_body]
fn values_try_append(map: &mut HeaderMap<HeaderValue>, name: &HeaderName, value: HeaderValue) -> (stored: bool)
    ensures
        value_groups(*old(map)).len() < ROOM ==> stored,
        stored ==> value_groups(*final(map)) == appended(
            value_groups(*old(map)),
            name_text(*name),
            value_bytes(value),
        ),
        !stored ==> value_groups(*final(map)) == value_groups(*old(map)),
{
    map.try_append(name, value).is_ok()
}

/// `HeaderMap::keys` and `HeaderMap::get_all`: every name once, in the
/// map's order, each with all its values in theirs, copied out as bytes.
/// No name comes twice.
#[verifier::external_body]
fn values_groups_vec(map: &HeaderMap<HeaderValue>) -> (r: Vec<(Vec<u8>, Vec<Vec<u8>>)>)
    ensures
        groups_view(r@) == value_groups(*map),
        distinct_names(groups_view(r@)),
{
    let mut out = Vec::new();
    for name in map.keys() {
        let mut values = Vec::new();
        for value in map.get_all(name) {
            values.push(value.as_bytes().to_vec());
        }
        out.push((name.as_str().as_bytes().to_vec(), values));
    }
    out
}

/// `HeaderMap::default`: a map that holds nothing.
#[verifier::external_body]
fn casings_new() -> (r: HeaderMap<Bytes>)
    ensures
        casing_groups(r) == Seq::<(Seq<u8>, Seq<Seq<u8>>)>::empty(),
{
    HeaderMap::default()
}

/// `HeaderMap::try_insert` on a map of spellings, as `values_try_insert`.
#[verifier::external_body]
fn casings_try_insert(map: &mut HeaderMap<Bytes>, name: &HeaderName, orig: Bytes) -> (stored: bool)
    ensures
        casing_groups(*old(map)).len() < ROOM ==> stored,
        stored ==> casing_groups(*final(map)) == replaced(
            casing_groups(*old(map)),
            name_text(*name),
            bytes_contents(orig),
        ),
        !stored ==> casing_groups(*final(map)) == casing_groups(*old(map)),
{
    map.try_insert(name, orig).is_ok()
}

/// `HeaderMap::try_append` on a map of spellings, as `values_try_append`.
#[verifier::external_body]
fn casings_try_append(map: &mut HeaderMap<Bytes>, name: &HeaderName, orig: Bytes) -> (stored: bool)
    ensures
        casing_groups(*old(map)).len() < ROOM ==> stored,
        stored ==> casing_groups(*final(map)) == appended(
            casing_groups(*old(map)),
            name_text(*name),
            bytes_contents(orig),
        ),
        !stored ==> casing_groups(*final(map)) == casing_groups(*old(map)),
{
    map.try_append(name, orig).is_ok()
}

/// `HeaderMap::keys` and `HeaderMap::get_all` on a map of spellings, as
/// `values_groups_vec`.
#[verifier::external_body]
fn casings_groups_vec(map: &HeaderMap<Bytes>) -> (r: Vec<(Vec<u8>, Vec<Vec<u8>>)>)
    ensures
        groups_view(r@) == casing_groups(*map),
{
    let mut out = Vec::new();
    for name in map.keys() {
        let mut spellings = Vec::new();
        for orig in map.get_all(name) {
            spellings.push(orig.to_vec());
        }
        out.push((name.as_str().as_bytes().to_vec(), spellings));
    }
    out
}

/// `HeaderMap::get_all`: how many values the name holds.
#[verifier::external_body]
fn values_held_count(map: &HeaderMap<HeaderValue>, name: &HeaderName) -> (r: usize)
    ensures
        r == held(value_groups(*map), name_text(*name)).len(),
{
    map.get_all(name).iter().count()
}

/// `HeaderMap::get_all` on a map of spellings: how many records the name
/// holds.
#[verifier::external_body]
fn casings_held_count(map: &HeaderMap<Bytes>, name: &HeaderName) -> (r: usize)
    ensures
        r == held(casing_groups(*map), name_text(*name)).len(),
{
    map.get_all(name).iter().count()
}

/// `HeaderMap::get` on a map of spellings: the first record of the name,
/// where it has one.
#[verifier::external_body]
fn casings_get<'a>(map: &'a HeaderMap<Bytes>, name: &HeaderName) -> (r: Option<&'a Bytes>)
    ensures
        r.is_some() == (held(casing_groups(*map), name_text(*name)).len() > 0),
        r matches Some(first) ==> bytes_contents(*first) == held(casing_groups(*map), name_text(*name))[0],
{
    map.get(name)
}

/// The byte strings that a vector of byte vectors holds.
pub open spec fn strings_view(strings: Seq<Vec<u8>>) -> Seq<Seq<u8>> {
    Seq::new(strings.len(), |k: int| strings[k]@)
}

/// The groups that a vector of copied-out groups holds.
pub open spec fn groups_view(groups: Seq<(Vec<u8>, Vec<Vec<u8>>)>) -> Seq<(Seq<u8>, Seq<Seq<u8>>)> {
    Seq::new(groups.len(), |i: int| (groups[i].0@, strings_view(groups[i].1@)))
}

/// The name and value pairs that a vector of pairs holds.
pub open spec fn pairs_view(pairs: Seq<(Vec<u8>, Vec<u8>)>) -> Seq<(Seq<u8>, Seq<u8>)> {
    Seq::new(pairs.len(), |i: int| (pairs[i].0@, pairs[i].1@))
}

/// The spelling under which the value at place `k` of `name` is handed out:
/// the spelling recorded at that place, or the name itself where none was.
pub open spec fn spelling(casings: Seq<(Seq<u8>, Seq<Seq<u8>>)>, name: Seq<u8>, k: int) -> Seq<u8> {
    let recorded = held(casings, name);
    if 0 <= k < recorded.len() {
        recorded[k]
    } else {
        name
    }
}

/// The entries that one group of values gives, in order.
pub open spec fn group_entries(casings: Seq<(Seq<u8>, Seq<Seq<u8>>)>, group: (Seq<u8>, Seq<Seq<u8>>)) -> Seq<
    (Seq<u8>, Seq<u8>),
> {
    Seq::new(group.1.len(), |k: int| (spelling(casings, group.0, k), group.1[k]))
}

/// All entries, in the order in which an iteration hands them out: group
/// after group, and inside a group value after value.
pub open spec fn entries_of(values: Seq<(Seq<u8>, Seq<Seq<u8>>)>, casings: Seq<(Seq<u8>, Seq<Seq<u8>>)>) -> Seq<
    (Seq<u8>, Seq<u8>),
>
    decreases values.len(),
{
    if values.len() == 0 {
        Seq::empty()
    } else {
        entries_of(values.drop_last(), casings) + group_entries(casings, values.last())
    }
}

/// `index_of` is a position in the sequence or its length, no group before
/// it holds the name, and the group at it does.
pub proof fn lemma_index_of(groups: Seq<(Seq<u8>, Seq<Seq<u8>>)>, name: Seq<u8>)
    ensures
        0 <= index_of(groups, name) <= groups.len(),
        index_of(groups, name) < groups.len() ==> groups[index_of(groups, name)].0 == name,
        forall|j: int| 0 <= j < index_of(groups, name) ==> (#[trigger] groups[j]).0 != name,
    decreases groups.len(),
{
    if groups.len() != 0 && groups[0].0 != name {
        let rest = groups.drop_first();
        lemma_index_of(rest, name);
        assert forall|j: int| 0 <= j < index_of(groups, name) implies (#[trigger] groups[j]).0
            != name by {
            if j > 0 {
                assert(groups[j] == rest[j - 1]);
            }
        }
    }
}

/// Whether two byte strings are equal.
pub fn bytes_eq(a: &[u8], b: &[u8]) -> (r: bool)
    ensures
        r == (a@ == b@),
{
    if a.len() != b.len() {
        return false;
    }
    let mut i: usize = 0;
    while i < a.len()
        invariant
            i <= a.len(),
            a.len() == b.len(),
            forall|j: int| 0 <= j < i ==> a@[j] == b@[j],
        decreases a.len() - i,
    {
        if a[i] != b[i] {
            return false;
        }
        i = i + 1;
    }
    proof {
        assert(a@ =~= b@);
    }
    true
}

/// A copy of a byte string.
pub fn copy_bytes(src: &[u8]) -> (r: Vec<u8>)
    ensures
        r@ == src@,
{
    let mut out: Vec<u8> = Vec::new();
    let mut i: usize = 0;
    while i < src.len()
        invariant
            i <= src.len(),
            out@ =~= src@.take(i as int),
        decreases src.len() - i,
    {
        out.push(src[i]);
        i = i + 1;
    }
    proof {
        assert(src@.take(src.len() as int) =~= src@);
    }
    out
}

/// The canonical spelling of a name: a copy with every letter in lower
/// case.
pub fn canonical_bytes(name: &[u8]) -> (r: Vec<u8>)
    ensures
        r@ == canonical(name@),
{
    let mut out: Vec<u8> = Vec::new();
    let mut i: usize = 0;
    while i < name.len()
        invariant
            i <= name.len(),
            out@.len() == i,
            forall|j: int| 0 <= j < i ==> out@[j] == lower(name@[j]),
        decreases name.len() - i,
    {
        let b: u8 = name[i];
        let lowered: u8 = if 65 <= b && b <= 90 {
            b + 32
        } else {
            b
        };
        out.push(lowered);
        i = i + 1;
    }
    proof {
        assert(out@ =~= canonical(name@));
    }
    out
}

/// After a name's list is set, the name holds that list, at the place it
/// had, and at most one group has come.
pub proof fn lemma_with_held(groups: Seq<(Seq<u8>, Seq<Seq<u8>>)>, name: Seq<u8>, list: Seq<Seq<u8>>)
    ensures
        index_of(with_held(groups, name, list), name) == index_of(groups, name),
        index_of(groups, name) < with_held(groups, name, list).len(),
        held(with_held(groups, name, list), name) == list,
        with_held(groups, name, list).len() <= groups.len() + 1,
{
    let after = with_held(groups, name, list);
    lemma_index_of(groups, name);
    lemma_index_of(after, name);
    let i = index_of(groups, name);
    let j = index_of(after, name);
    assert(after[i].0 == name);
    if j < i {
        assert(after[j].0 == groups[j].0);
    }
    if j > i {
        assert(after[i].0 != name);
    }
}

/// What a name holds after its spellings were filled up, and how many
/// groups there are then.
pub proof fn lemma_held_padded(casings: Seq<(Seq<u8>, Seq<Seq<u8>>)>, name: Seq<u8>, count: int)
    ensures
        held(padded(casings, name, count), name) == if held(casings, name).len() >= count {
            held(casings, name)
        } else {
            held(casings, name) + Seq::new((count - held(casings, name).len()) as nat, |j: int| name)
        },
        padded(casings, name, count).len() <= casings.len() + 1,
{
    let had = held(casings, name);
    if had.len() < count {
        lemma_with_held(casings, name, had + Seq::new((count - had.len()) as nat, |j: int| name));
    }
}

/// One more record of the name itself, behind spellings filled up to
/// `count`, gives the spellings filled up to `count + 1`.
pub proof fn lemma_pad_step(casings: Seq<(Seq<u8>, Seq<Seq<u8>>)>, name: Seq<u8>, count: int)
    requires
        held(casings, name).len() <= count,
    ensures
        appended(padded(casings, name, count), name, name) == padded(casings, name, count + 1),
{
    let had = held(casings, name);
    let at = index_of(casings, name);
    lemma_index_of(casings, name);
    let before = padded(casings, name, count);
    let target = had + Seq::new((count + 1 - had.len()) as nat, |j: int| name);
    if had.len() == count {
        assert(had.push(name) =~= target);
        assert(appended(before, name, name) =~= padded(casings, name, count + 1));
    } else {
        let list = had + Seq::new((count - had.len()) as nat, |j: int| name);
        lemma_with_held(casings, name, list);
        assert(list.push(name) =~= target);
        assert(appended(before, name, name) =~= padded(casings, name, count + 1));
    }
}

/// The position of the group that holds `name`, or the number of groups.
fn find_group(groups: &Vec<(Vec<u8>, Vec<Vec<u8>>)>, name: &[u8]) -> (r: usize)
    ensures
        r == index_of(groups_view(groups@), name@),
{
    let ghost all = groups_view(groups@);
    let mut i: usize = 0;
    proof {
        assert(all.skip(0) =~= all);
    }
    while i < groups.len()
        invariant
            i <= groups.len(),
            all == groups_view(groups@),
            index_of(all, name@) == i + index_of(all.skip(i as int), name@),
        decreases groups.len() - i,
    {
        proof {
            assert(all.skip(i as int)[0] == all[i as int]);
            assert(all.skip(i as int).drop_first() =~= all.skip(i as int + 1));
        }
        if bytes_eq(groups[i].0.as_slice(), name) {
            return i;
        }
        i = i + 1;
    }
    proof {
        assert(all.skip(i as int).len() == 0);
    }
    i
}

/// The spelling of header names as they were written, kept beside the
/// values under the same names and in the same order.
pub struct HeaderCaseMap(pub(crate) HeaderMap<Bytes>);

impl View for HeaderCaseMap {
    type V = Seq<(Seq<u8>, Seq<Seq<u8>>)>;

    closed spec fn view(&self) -> Seq<(Seq<u8>, Seq<Seq<u8>>)> {
        casing_groups(self.0)
    }
}

impl HeaderCaseMap {
    /// A map with no spelling recorded.
    pub fn new() -> (r: HeaderCaseMap)
        ensures
            r@ == Seq::<(Seq<u8>, Seq<Seq<u8>>)>::empty(),
    {
        HeaderCaseMap(casings_new())
    }

    /// The first spelling recorded for `name`, where there is one.
    pub fn get(&self, name: &HeaderName) -> (r: Option<&Bytes>)
        ensures
            r.is_some() == (held(self@, name_text(*name)).len() > 0),
            r matches Some(first) ==> bytes_contents(*first) == held(self@, name_text(*name))[0],
    {
        casings_get(&self.0, name)
    }

    /// Records `orig` as the only spelling of `name`. Returns whether the
    /// map could take it, as it can while it holds fewer than `ROOM` names;
    /// where it could not, the map is unchanged.
    pub fn insert(&mut self, name: &HeaderName, orig: Bytes) -> (stored: bool)
        ensures
            old(self)@.len() < ROOM ==> stored,
            stored ==> final(self)@ == replaced(old(self)@, name_text(*name), bytes_contents(orig)),
            !stored ==> final(self)@ == old(self)@,
    {
        casings_try_insert(&mut self.0, name, orig)
    }

    /// Records `orig` behind the spellings that `name` has. Returns whether
    /// the map could take it, as it can while it holds fewer than `ROOM`
    /// names; where it could not, the map is unchanged.
    pub fn append(&mut self, name: &HeaderName, orig: Bytes) -> (stored: bool)
        ensures
            old(self)@.len() < ROOM ==> stored,
            stored ==> final(self)@ == appended(old(self)@, name_text(*name), bytes_contents(orig)),
            !stored ==> final(self)@ == old(self)@,
    {
        casings_try_append(&mut self.0, name, orig)
    }
}

/// The headers of a message: the values by name, and the spelling of each
/// name as it was written.
pub struct hyper_headers {
    pub(crate) headers: HeaderMap<HeaderValue>,
    pub(crate) orig_casing: HeaderCaseMap,
}

/// The status of a store into the two maps: `HYPERE_OK` where both took the
/// entry, `HYPERE_ERROR` where one of them could not grow.
pub fn status_of_store(values_stored: bool, casing_stored: bool) -> (code: hyper_code)
    ensures
        code == if values_stored && casing_stored {
            hyper_code::HYPERE_OK
        } else {
            hyper_code::HYPERE_ERROR
        },
{
    if values_stored && casing_stored {
        hyper_code::HYPERE_OK
    } else {
        hyper_code::HYPERE_ERROR
    }
}

/// Checks a name and a value against the grammar. Gives the name in its
/// canonical spelling, the value, and the name's bytes as they were written;
/// or `HYPERE_INVALID_ARG` where either breaks the grammar.
pub fn raw_name_value(name: &[u8], value: &[u8]) -> (r: Result<(HeaderName, HeaderValue, Bytes), hyper_code>)
    ensures
        r.is_ok() == (is_header_name(name@) && is_header_value(value@)),
        r matches Ok(parts) ==> {
            &&& name_text(parts.0) == canonical(name@)
            &&& value_bytes(parts.1) == value@
            &&& bytes_contents(parts.2) == name@
        },
        r matches Err(code) ==> code == hyper_code::HYPERE_INVALID_ARG,
{
    let orig_name = bytes_copy_from_slice(name);
    let name = match header_name_from_bytes(name) {
        Some(name) => name,
        None => {
            return Err(hyper_code::HYPERE_INVALID_ARG);
        },
    };
    let value = match header_value_from_bytes(value) {
        Some(value) => value,
        None => {
            return Err(hyper_code::HYPERE_INVALID_ARG);
        },
    };
    Ok((name, value, orig_name))
}

impl hyper_headers {
    /// The values, grouped by canonical name in the order of an iteration.
    pub closed spec fn values(&self) -> Seq<(Seq<u8>, Seq<Seq<u8>>)> {
        value_groups(self.headers)
    }

    /// The recorded spellings, grouped by canonical name.
    pub closed spec fn casings(&self) -> Seq<(Seq<u8>, Seq<Seq<u8>>)> {
        self.orig_casing@
    }

    /// The entries that an iteration hands out, in order.
    pub open spec fn entries_spec(&self) -> Seq<(Seq<u8>, Seq<u8>)> {
        entries_of(self.values(), self.casings())
    }

    /// Headers with no entry.
    pub fn new() -> (r: hyper_headers)
        ensures
            r.values() == Seq::<(Seq<u8>, Seq<Seq<u8>>)>::empty(),
            r.casings() == Seq::<(Seq<u8>, Seq<Seq<u8>>)>::empty(),
    {
        hyper_headers { headers: values_new(), orig_casing: HeaderCaseMap::new() }
    }

    /// Headers made of a map of values and the spellings that belong to it.
    pub fn from_parts(headers: HeaderMap<HeaderValue>, orig_casing: HeaderCaseMap) -> (r: hyper_headers)
        ensures
            r.values() == value_groups(headers),
            r.casings() == orig_casing@,
    {
        hyper_headers { headers, orig_casing }
    }

    /// Gives the map of values and the spellings away.
    pub fn into_parts(self) -> (r: (HeaderMap<HeaderValue>, HeaderCaseMap))
        ensures
            value_groups(r.0) == self.values(),
            r.1@ == self.casings(),
    {
        (self.headers, self.orig_casing)
    }

    /// Sets the header `name` to `value`, in place of every value that the
    /// name had, and records `name` as written as its only spelling.
    ///
    /// Returns `HYPERE_INVALID_ARG`, and changes nothing, exactly where the
    /// name or the value breaks the grammar. Otherwise `HYPERE_OK` says that
    /// both maps took the entry, as they do while each holds fewer than
    /// `ROOM` names; `HYPERE_ERROR` says that a map could not grow, and then
    /// no spelling was recorded.
    pub fn set(&mut self, name: &[u8], value: &[u8]) -> (code: hyper_code)
        ensures
            (code == hyper_code::HYPERE_INVALID_ARG) == !(is_header_name(name@) && is_header_value(value@)),
            is_header_name(name@) && is_header_value(value@) && old(self).values().len() < ROOM && old(
                self,
            ).casings().len() < ROOM ==> code == hyper_code::HYPERE_OK,
            code == hyper_code::HYPERE_INVALID_ARG ==> {
                &&& final(self).values() == old(self).values()
                &&& final(self).casings() == old(self).casings()
            },
            code == hyper_code::HYPERE_OK ==> {
                &&& final(self).values() == replaced(old(self).values(), canonical(name@), value@)
                &&& final(self).casings() == replaced(old(self).casings(), canonical(name@), name@)
            },
            code == hyper_code::HYPERE_ERROR ==> {
                &&& final(self).casings() == old(self).casings()
                &&& (final(self).values() == old(self).values() || final(self).values() == replaced(
                    old(self).values(),
                    canonical(name@),
                    value@,
                ))
            },
    {
        match raw_name_value(name, value) {
            Ok((name, value, orig_name)) => {
                let values_stored = values_try_insert(&mut self.headers, &name, value);
                let casing_stored = values_stored && self.orig_casing.insert(&name, orig_name);
                status_of_store(values_stored, casing_stored)
            },
            Err(code) => code,
        }
    }

    /// Adds `value` behind the values that the header `name` has, and
    /// records `name` as written as the spelling of that value. Where the
    /// name has values without a spelling, because they did not come by
    /// `set` or `add`, the canonical name is first recorded for each of
    /// them, so that the new spelling stands at the place of the new value.
    ///
    /// Returns `HYPERE_INVALID_ARG`, and changes nothing, exactly where the
    /// name or the value breaks the grammar. Otherwise `HYPERE_OK` says that
    /// both maps took the entry, as they do while they hold fewer than
    /// `ROOM` names, the spellings with the new name counted;
    /// `HYPERE_ERROR` says that a map could not grow, and then the spelling
    /// as written was not recorded.
    pub fn add(&mut self, name: &[u8], value: &[u8]) -> (code: hyper_code)
        ensures
            (code == hyper_code::HYPERE_INVALID_ARG) == !(is_header_name(name@) && is_header_value(value@)),
            is_header_name(name@) && is_header_value(value@) && old(self).values().len() < ROOM && old(
                self,
            ).casings().len() + 1 < ROOM ==> code == hyper_code::HYPERE_OK,
            code == hyper_code::HYPERE_INVALID_ARG ==> {
                &&& final(self).values() == old(self).values()
                &&& final(self).casings() == old(self).casings()
            },
            code == hyper_code::HYPERE_OK ==> {
                &&& final(self).values() == appended(old(self).values(), canonical(name@), value@)
                &&& final(self).casings() == appended(
                    padded(
                        old(self).casings(),
                        canonical(name@),
                        held(old(self).values(), canonical(name@)).len() as int,
                    ),
                    canonical(name@),
                    name@,
                )
            },
            code == hyper_code::HYPERE_ERROR ==> {
                &&& exists|count: int|
                    0 <= count <= held(old(self).values(), canonical(name@)).len() && final(self).casings()
                        == #[trigger] padded(old(self).casings(), canonical(name@), count)
                &&& (final(self).values() == old(self).values() || final(self).values() == appended(
                    old(self).values(),
                    canonical(name@),
                    value@,
                ))
            },
    {
        match raw_name_value(name, value) {
            Ok((key, value, orig_name)) => {
                let ghost text = canonical(name@);
                let ghost before = self.casings();
                let have = values_held_count(&self.headers, &key);
                let start = casings_held_count(&self.orig_casing.0, &key);
                let lowered = canonical_bytes(name);
                let mut recorded: usize = start;
                let mut room = true;
                proof {
                    assert(padded(before, text, 0) == before);
                }
                while recorded < have && room
                    invariant
                        text == canonical(name@),
                        name_text(key) == text,
                        lowered@ == text,
                        before == old(self).casings(),
                        self.values() == old(self).values(),
                        have == held(old(self).values(), text).len(),
                        start == held(before, text).len(),
                        start <= recorded,
                        recorded == start || recorded <= have,
                        self.casings() == padded(before, text, recorded as int),
                        self.casings().len() <= before.len() + 1,
                        before.len() + 1 < ROOM ==> room,
                    decreases have - recorded + (if room { 1int } else { 0int }),
                {
                    let pad = bytes_copy_from_slice(lowered.as_slice());
                    proof {
                        lemma_pad_step(before, text, recorded as int);
                        lemma_held_padded(before, text, recorded as int + 1);
                    }
                    room = self.orig_casing.append(&key, pad);
                    if room {
                        recorded = recorded + 1;
                    }
                }
                if !room {
                    proof {
                        if recorded <= have {
                            assert(self.casings() == padded(before, text, recorded as int));
                        } else {
                            assert(self.casings() == padded(before, text, 0));
                        }
                    }
                    return hyper_code::HYPERE_ERROR;
                }
                proof {
                    assert(padded(before, text, recorded as int) == padded(before, text, have as int));
                }
                let values_stored = values_try_append(&mut self.headers, &key, value);
                let casing_stored = values_stored && self.orig_casing.append(&key, orig_name);
                status_of_store(values_stored, casing_stored)
            },
            Err(code) => code,
        }
    }
}

/// What a callback was handed for an entry, and whether it asked to go on.
pub open spec fn answered<F: Fn(&[u8], &[u8]) -> i32>(func: F, entry: (Seq<u8>, Seq<u8>), goes_on: bool) -> bool {
    exists|name: &[u8], value: &[u8], signal: i32|
        {
            &&& name@ == entry.0
            &&& value@ == entry.1
            &&& #[trigger] call_ensures(func, (name, value), signal)
            &&& crate::code::continues(signal) == goes_on
        }
}

impl hyper_headers {
    /// All entries in the order of an iteration, each name spelled as it
    /// was written where that was recorded, and canonically where not.
    pub fn entries(&self) -> (r: Vec<(Vec<u8>, Vec<u8>)>)
        ensures
            pairs_view(r@) == self.entries_spec(),
            distinct_names(self.values()),
    {
        let values = values_groups_vec(&self.headers);
        let casings = casings_groups_vec(&self.orig_casing.0);
        let ghost vg = groups_view(values@);
        let ghost cg = groups_view(casings@);
        let mut out: Vec<(Vec<u8>, Vec<u8>)> = Vec::new();
        let mut i: usize = 0;
        proof {
            assert(vg.take(0) =~= Seq::empty());
        }
        while i < values.len()
            invariant
                i <= values.len(),
                vg == groups_view(values@),
                cg == groups_view(casings@),
                pairs_view(out@) =~= entries_of(vg.take(i as int), cg),
            decreases values.len() - i,
        {
            let name = &values[i].0;
            let held_values = &values[i].1;
            let at = find_group(&casings, name.as_slice());
            let ghost before = pairs_view(out@);
            let ghost group = vg[i as int];
            let mut k: usize = 0;
            proof {
                lemma_index_of(cg, name@);
            }
            while k < held_values.len()
                invariant
                    k <= held_values.len(),
                    i < values.len(),
                    vg == groups_view(values@),
                    cg == groups_view(casings@),
                    group == vg[i as int],
                    name == &values[i as int].0,
                    held_values == &values[i as int].1,
                    at == index_of(cg, name@),
                    at <= casings.len(),
                    pairs_view(out@) =~= before + group_entries(cg, group).take(k as int),
                decreases held_values.len() - k,
            {
                let spelled = if at < casings.len() && k < casings[at].1.len() {
                    copy_bytes(casings[at].1[k].as_slice())
                } else {
                    copy_bytes(name.as_slice())
                };
                let value = copy_bytes(held_values[k].as_slice());
                proof {
                    assert(spelled@ == spelling(cg, group.0, k as int));
                    assert(value@ == group.1[k as int]);
                    assert(group_entries(cg, group).take(k as int + 1) =~= group_entries(cg, group).take(
                        k as int,
                    ).push((spelled@, value@)));
                }
                let ghost earlier = pairs_view(out@);
                let ghost entry = (spelled@, value@);
                out.push((spelled, value));
                proof {
                    assert(pairs_view(out@) =~= earlier.push(entry));
                    assert(earlier.push(entry) =~= before + group_entries(cg, group).take(k as int + 1));
                }
                k = k + 1;
            }
            proof {
                assert(group_entries(cg, group).take(k as int) =~= group_entries(cg, group));
                assert(vg.take(i as int + 1).drop_last() =~= vg.take(i as int));
                assert(vg.take(i as int + 1).last() == group);
            }
            i = i + 1;
        }
        proof {
            assert(vg.take(i as int) =~= vg);
        }
        out
    }

    /// Hands the entries to `func`, name and value, in the order of
    /// `entries`, until all are handed out or `func` returns anything but
    /// `HYPER_ITER_CONTINUE`. Returns the number of entries handed out.
    ///
    /// Every entry before the last one handed out made `func` ask to go on;
    /// where entries are left, the last one made it stop. The bytes are lent
    /// to `func` for the call only, and the headers stay borrowed for the
    /// whole iteration, so `func` cannot change them.
    pub fn foreach<F: Fn(&[u8], &[u8]) -> i32>(&self, func: F) -> (visited: usize)
        requires
            forall|name: &[u8], value: &[u8]| call_requires(func, (name, value)),
        ensures
            visited <= self.entries_spec().len(),
            forall|i: int| 0 <= i < visited - 1 ==> answered(func, #[trigger] self.entries_spec()[i], true),
            visited < self.entries_spec().len() ==> visited > 0 && answered(
                func,
                self.entries_spec()[visited - 1],
                false,
            ),
            visited > 0 ==> answered(func, self.entries_spec()[visited - 1], true) || answered(
                func,
                self.entries_spec()[visited - 1],
                false,
            ),
    {
        let entries = self.entries();
        let ghost all = self.entries_spec();
        let mut i: usize = 0;
        while i < entries.len()
            invariant
                i <= entries.len(),
                all == pairs_view(entries@),
                all == self.entries_spec(),
                all.len() == entries.len(),
                forall|name: &[u8], value: &[u8]| call_requires(func, (name, value)),
                forall|j: int| 0 <= j < i ==> answered(func, #[trigger] all[j], true),
            decreases entries.len() - i,
        {
            let name = entries[i].0.as_slice();
            let value = entries[i].1.as_slice();
            let signal = func(name, value);
            let goes_on = crate::code::iter_continues(signal);
            proof {
                assert(call_ensures(func, (name, value), signal));
                assert(answered(func, all[i as int], goes_on));
            }
            i = i + 1;
            if !goes_on {
                return i;
            }
        }
        i
    }
}

impl hyper_headers {
    /// The headers attached at `slot`; where none are attached yet, empty
    /// headers are attached first. What the caller then does to the headers
    /// is done to the attached ones.
    pub fn get_or_default(slot: &mut Option<hyper_headers>) -> (r: &mut hyper_headers)
        ensures
            *old(slot) matches Some(attached) ==> *r == attached,
            *old(slot) is None ==> {
                &&& r.values() == Seq::<(Seq<u8>, Seq<Seq<u8>>)>::empty()
                &&& r.casings() == Seq::<(Seq<u8>, Seq<Seq<u8>>)>::empty()
            },
            *final(slot) == Some(*final(r)),
    {
        if slot.is_none() {
            *slot = Some(hyper_headers::new());
        }
        match slot {
            Some(headers) => headers,
            None => vstd::pervasive::unreached(),
        }
    }
}

} // verus!
