//! JSON and TOML values, reading them, and laying one JSON value over another.

use crate::text::str_eq;
use vstd::prelude::*;

verus! {

/// A JSON number. A number with a fraction or an exponent is held by the bits of its
/// double-precision value.
#[derive(Clone, Copy, PartialEq, Eq, Structural, Debug)]
pub enum Num {
    Unsigned(u64),
    Negative(i64),
    Float(u64),
}

/// A JSON value.
#[derive(Debug)]
pub enum Json {
    Null,
    Bool(bool),
    Number(Num),
    Str(String),
    Array(Vec<Json>),
    Object(Vec<Member>),
}

/// A key of an object with its value.
#[derive(Debug)]
pub struct Member {
    pub key: String,
    pub value: Json,
}

/// The view of a [`Json`] value: an object is a map from its keys.
#[verifier::ext_equal]
pub enum JsonView {
    Null,
    Bool(bool),
    Number(Num),
    Str(Seq<char>),
    Array(Seq<JsonView>),
    Object(Map<Seq<char>, JsonView>),
}

/// The view of a JSON value.
pub open spec fn json_view(j: Json) -> JsonView
    decreases j, 0nat,
{
    match j {
        Json::Null => JsonView::Null,
        Json::Bool(b) => JsonView::Bool(b),
        Json::Number(n) => JsonView::Number(n),
        Json::Str(s) => JsonView::Str(s@),
        Json::Array(items) => JsonView::Array(items_view(items, items.len() as nat)),
        Json::Object(members) => JsonView::Object(members_view(members, members.len() as nat)),
    }
}

/// The views of the first `n` items.
pub open spec fn items_view(items: Vec<Json>, n: nat) -> Seq<JsonView>
    decreases items, n,
{
    if n == 0 || n > items.len() {
        Seq::empty()
    } else {
        items_view(items, (n - 1) as nat).push(json_view(items[n - 1]))
    }
}

/// The map that the first `n` members make.
pub open spec fn members_view(members: Vec<Member>, n: nat) -> Map<Seq<char>, JsonView>
    decreases members, n,
{
    if n == 0 || n > members.len() {
        Map::empty()
    } else {
        members_view(members, (n - 1) as nat).insert(
            members[n - 1].key@,
            json_view(members[n - 1].value),
        )
    }
}

/// Whether no object in the value holds a key twice.
pub open spec fn json_wf(j: Json) -> bool
    decreases j, 0nat,
{
    match j {
        Json::Array(items) => items_wf(items, items.len() as nat),
        Json::Object(members) => {
            &&& keys_distinct(members@)
            &&& forall|i: int|
                #![trigger members[i]]
                0 <= i < members.len() ==> json_wf(members[i].value)
        },
        _ => true,
    }
}

/// Whether no object in the first `n` items holds a key twice.
pub open spec fn items_wf(items: Vec<Json>, n: nat) -> bool
    decreases items, n,
{
    n == 0 || n > items.len() || (items_wf(items, (n - 1) as nat) && json_wf(items[n - 1]))
}

/// Whether no two members have the same key.
pub open spec fn keys_distinct(members: Seq<Member>) -> bool {
    forall|i: int, j: int|
        0 <= i < j < members.len() ==> (#[trigger] members[i]).key@ != (#[trigger] members[j]).key@
}

impl View for Json {
    type V = JsonView;

    open spec fn view(&self) -> JsonView {
        json_view(*self)
    }
}

/// One value laid over another: two objects are merged key by key, and where either is
/// no object the upper one stands.
pub open spec fn merged(base: JsonView, over: JsonView) -> JsonView
    decreases over,
{
    match (base, over) {
        (JsonView::Object(b), JsonView::Object(o)) => JsonView::Object(
            Map::new(
                |k: Seq<char>| b.contains_key(k) || o.contains_key(k),
                |k: Seq<char>|
                    if !o.contains_key(k) {
                        b[k]
                    } else if !b.contains_key(k) {
                        o[k]
                    } else {
                        merged(b[k], o[k])
                    },
            ),
        ),
        _ => over,
    }
}

/// The map of the first members has exactly their keys, each with its value.
pub proof fn lemma_members_view(members: Vec<Member>, n: nat)
    requires
        n <= members.len(),
        keys_distinct(members@),
    ensures
        forall|k: Seq<char>| #[trigger]
            members_view(members, n).contains_key(k) ==> exists|i: int|
                0 <= i < n && #[trigger] members[i].key@ == k,
        forall|i: int|
            0 <= i < n ==> members_view(members, n).contains_key((#[trigger] members[i]).key@)
                && members_view(members, n)[members[i].key@] == json_view(members[i].value),
    decreases n,
{
    if n > 0 {
        let m = (n - 1) as nat;
        lemma_members_view(members, m);
        assert forall|k: Seq<char>| #[trigger]
            members_view(members, n).contains_key(k) implies exists|i: int|
            0 <= i < n && #[trigger] members[i].key@ == k by {
            if k == members[m as int].key@ {
                assert(members[m as int].key@ == k);
            } else {
                assert(members_view(members, m).contains_key(k));
            }
        }
        assert forall|i: int| 0 <= i < n implies members_view(members, n).contains_key(
            (#[trigger] members[i]).key@,
        ) && members_view(members, n)[members[i].key@] == json_view(members[i].value) by {
            if i < m {
                assert(members@[i].key@ != members@[m as int].key@);
            }
        }
    }
}

/// The map that some members make depends on those members alone.
proof fn lemma_members_view_prefix(a: Vec<Member>, b: Vec<Member>, n: nat)
    requires
        n <= a.len(),
        n <= b.len(),
        forall|i: int| 0 <= i < n ==> a[i] == b[i],
    ensures
        members_view(a, n) == members_view(b, n),
    decreases n,
{
    if n > 0 {
        lemma_members_view_prefix(a, b, (n - 1) as nat);
    }
}

/// The place of a key among the members.
pub fn find_member(members: &Vec<Member>, key: &str) -> (r: Option<usize>)
    ensures
        match r {
            Some(i) => i < members@.len() && members@[i as int].key@ == key@ && forall|j: int|
                0 <= j < i ==> (#[trigger] members@[j]).key@ != key@,
            None => forall|j: int| 0 <= j < members@.len() ==> (#[trigger] members@[j]).key@ != key@,
        },
{
    let mut i: usize = 0;
    while i < members.len()
        invariant
            i <= members@.len(),
            forall|j: int| 0 <= j < i ==> (#[trigger] members@[j]).key@ != key@,
        decreases members@.len() - i,
    {
        if str_eq(members[i].key.as_str(), key) {
            return Some(i);
        }
        i += 1;
    }
    None
}

/// Whether `k` is a key of the members from `from` on.
spec fn in_range_key(members: Seq<Member>, from: int, k: Seq<char>) -> bool {
    exists|i: int| from <= i < members.len() && (#[trigger] members[i]).key@ == k
}

/// The merge where only the upper members from `from` on have been laid over.
spec fn merged_from(
    b: Map<Seq<char>, JsonView>,
    o: Map<Seq<char>, JsonView>,
    upper: Seq<Member>,
    from: int,
) -> Map<Seq<char>, JsonView> {
    Map::new(
        |k: Seq<char>| b.contains_key(k) || in_range_key(upper, from, k),
        |k: Seq<char>|
            if !in_range_key(upper, from, k) {
                b[k]
            } else if !b.contains_key(k) {
                o[k]
            } else {
                merged(b[k], o[k])
            },
    )
}

proof fn lemma_removed(before: Vec<Member>, after: Vec<Member>, at: int)
    requires
        0 <= at < before.len(),
        after@ == before@.remove(at),
        keys_distinct(before@),
        keys_distinct(after@),
    ensures
        members_view(after, after.len() as nat) == members_view(
            before,
            before.len() as nat,
        ).remove(before[at].key@),
{
    let a = members_view(after, after.len() as nat);
    let b = members_view(before, before.len() as nat);
    lemma_members_view(before, before.len() as nat);
    lemma_members_view(after, after.len() as nat);
    assert forall|k: Seq<char>| a.contains_key(k) implies b.remove(before[at].key@).contains_key(k)
        && a[k] == b.remove(before[at].key@)[k] by {
        let i = choose|i: int| 0 <= i < after@.len() && #[trigger] after[i].key@ == k;
        let j = if i < at { i } else { i + 1 };
        assert(after[i] == before[j]);
        if j < at {
            assert(before@[j].key@ != before@[at].key@);
        } else {
            assert(before@[at].key@ != before@[j].key@);
        }
    }
    assert forall|k: Seq<char>| b.remove(before[at].key@).contains_key(k) implies a.contains_key(
        k,
    ) by {
        let j = choose|j: int| 0 <= j < before@.len() && #[trigger] before[j].key@ == k;
        let i = if j < at { j } else { j - 1 };
        assert(after[i] == before[j]);
    }
    assert(a =~= b.remove(before[at].key@));
}

proof fn lemma_pushed(before: Vec<Member>, after: Vec<Member>)
    requires
        after@.len() == before@.len() + 1,
        after@.drop_last() == before@,
    ensures
        members_view(after, after.len() as nat) == members_view(
            before,
            before.len() as nat,
        ).insert(after@.last().key@, json_view(after@.last().value)),
{
    assert forall|i: int| 0 <= i < before@.len() implies after[i] == before[i] by {
        assert(after@.drop_last()[i] == before@[i]);
    }
    lemma_members_view_prefix(after, before, before.len() as nat);
}

/// Lays one value over the value of a key.
fn put_merged(members: &mut Vec<Member>, key: String, value: Json)
    requires
        json_wf(Json::Object(*old(members))),
        json_wf(value),
    ensures
        json_wf(Json::Object(*final(members))),
        ({
            let before = members_view(*old(members), old(members).len() as nat);
            members_view(*final(members), final(members).len() as nat) == before.insert(
                key@,
                if before.contains_key(key@) {
                    merged(before[key@], value@)
                } else {
                    value@
                },
            )
        }),
    decreases value, 1nat,
{
    let ghost m0 = *members;
    let ghost map0 = members_view(m0, m0.len() as nat);
    proof {
        lemma_members_view(m0, m0.len() as nat);
    }
    match find_member(members, key.as_str()) {
        Some(at) => {
            proof {
                assert(json_wf(m0[at as int].value));
            }
            let old_member = members.remove(at);
            let ghost m1 = *members;
            proof {
                lemma_distinct_removed(m0, m1, at as int);
                lemma_removed(m0, m1, at as int);
            }
            let merged_value = merge_json_values(old_member.value, value);
            members.push(Member { key, value: merged_value });
            proof {
                assert(members@.drop_last() =~= m1@);
                lemma_pushed(m1, *members);
                lemma_wf_pushed(m1, *members);
                assert(map0.contains_key(m0[at as int].key@));
                assert(members_view(*members, members.len() as nat) =~= map0.insert(
                    key@,
                    merged(map0[key@], value@),
                ));
            }
        },
        None => {
            members.push(Member { key, value });
            proof {
                assert(members@.drop_last() =~= m0@);
                lemma_pushed(m0, *members);
                lemma_wf_pushed(m0, *members);
                if map0.contains_key(key@) {
                    let i = choose|i: int| 0 <= i < m0@.len() && #[trigger] m0[i].key@ == key@;
                    assert(m0@[i].key@ == key@);
                }
            }
        },
    }
}

proof fn lemma_distinct_removed(before: Vec<Member>, after: Vec<Member>, at: int)
    requires
        0 <= at < before.len(),
        after@ == before@.remove(at),
        json_wf(Json::Object(before)),
    ensures
        json_wf(Json::Object(after)),
        forall|i: int| 0 <= i < after@.len() ==> (#[trigger] after@[i]).key@ != before[at].key@,
{
    assert forall|i: int| 0 <= i < after@.len() implies json_wf((#[trigger] after[i]).value)
        && after@[i].key@ != before[at].key@ by {
        let j = if i < at { i } else { i + 1 };
        assert(after[i] == before[j]);
        if j < at {
            assert(before@[j].key@ != before@[at].key@);
        } else {
            assert(before@[at].key@ != before@[j].key@);
        }
    }
    assert forall|i: int, j: int| 0 <= i < j < after@.len() implies (#[trigger] after@[i]).key@ != (
    #[trigger] after@[j]).key@ by {
        let ii = if i < at { i } else { i + 1 };
        let jj = if j < at { j } else { j + 1 };
        assert(before@[ii].key@ != before@[jj].key@);
    }
}

proof fn lemma_wf_pushed(before: Vec<Member>, after: Vec<Member>)
    requires
        after@.len() == before@.len() + 1,
        after@.drop_last() == before@,
        json_wf(Json::Object(before)),
        json_wf(after@.last().value),
        forall|i: int|
            0 <= i < before@.len() ==> (#[trigger] before@[i]).key@ != after@.last().key@,
    ensures
        json_wf(Json::Object(after)),
{
    assert forall|i: int| 0 <= i < after@.len() implies json_wf((#[trigger] after[i]).value) by {
        if i < before@.len() {
            assert(after@.drop_last()[i] == before@[i]);
            assert(json_wf(before[i].value));
            assert(after[i] == before[i]);
        }
    }
    assert forall|i: int, j: int| 0 <= i < j < after@.len() implies (#[trigger] after@[i]).key@ != (
    #[trigger] after@[j]).key@ by {
        assert(after@.drop_last()[i] == before@[i]);
        if j < before@.len() {
            assert(after@.drop_last()[j] == before@[j]);
            assert(before@[i].key@ != before@[j].key@);
        }
    }
}

/// The upper members laid over the lower ones.
fn merge_members(lower: Vec<Member>, upper: Vec<Member>) -> (r: Vec<Member>)
    requires
        json_wf(Json::Object(lower)),
        json_wf(Json::Object(upper)),
    ensures
        json_wf(Json::Object(r)),
        JsonView::Object(members_view(r, r.len() as nat)) == merged(
            json_view(Json::Object(lower)),
            json_view(Json::Object(upper)),
        ),
    decreases upper, 0nat,
{
    let ghost b = members_view(lower, lower.len() as nat);
    let ghost o = members_view(upper, upper.len() as nat);
    let ghost upper0 = upper;
    let mut result = lower;
    let mut rest = upper;
    proof {
        lemma_members_view(upper0, upper0.len() as nat);
        assert(b =~= merged_from(b, o, upper0@, upper0@.len() as int));
    }
    while rest.len() > 0
        invariant
            upper0 == upper,
            json_wf(Json::Object(upper0)),
            rest@ == upper0@.take(rest@.len() as int),
            rest@.len() <= upper0@.len(),
            json_wf(Json::Object(result)),
            o == members_view(upper0, upper0.len() as nat),
            members_view(result, result.len() as nat) == merged_from(
                b,
                o,
                upper0@,
                rest@.len() as int,
            ),
        decreases rest@.len(),
    {
        let ghost n = rest@.len();
        let ghost before = members_view(result, result.len() as nat);
        let member = rest.pop().unwrap();
        let Member { key, value } = member;
        proof {
            assert(member == upper0[n - 1]);
            assert(rest@ =~= upper0@.take(n - 1));
            assert(json_wf(upper0[n - 1].value));
            assert(decreases_to!(upper0 => upper0[n - 1]));
            lemma_members_view(upper0, upper0.len() as nat);
            assert(!in_range_key(upper0@, n as int, key@)) by {
                assert forall|i: int| n <= i < upper0@.len() implies (
                #[trigger] upper0@[i]).key@ != key@ by {
                    assert(upper0@[n - 1].key@ != upper0@[i].key@);
                }
            }
            assert forall|k: Seq<char>| in_range_key(upper0@, n - 1, k) == (in_range_key(
                upper0@,
                n as int,
                k,
            ) || k == key@) by {
                if in_range_key(upper0@, n - 1, k) && k != key@ {
                    let i = choose|i: int|
                        n - 1 <= i < upper0@.len() && (#[trigger] upper0@[i]).key@ == k;
                    assert(upper0@[i].key@ == k);
                }
                assert(upper0@[n - 1].key@ == key@);
            }
        }
        put_merged(&mut result, key, value);
        proof {
            assert(members_view(result, result.len() as nat) =~= merged_from(
                b,
                o,
                upper0@,
                n - 1,
            ));
        }
    }
    proof {
        assert forall|k: Seq<char>| o.contains_key(k) == in_range_key(upper0@, 0, k) by {
            lemma_members_view(upper0, upper0.len() as nat);
            if o.contains_key(k) {
                let i = choose|i: int| 0 <= i < upper0@.len() && #[trigger] upper0[i].key@ == k;
                assert(upper0@[i].key@ == k);
            }
            if in_range_key(upper0@, 0, k) {
                let i = choose|i: int| 0 <= i < upper0@.len() && (#[trigger] upper0@[i]).key@ == k;
                assert(o.contains_key(upper0[i].key@));
            }
        }
        let all = merged(JsonView::Object(b), JsonView::Object(o));
        assert(all->Object_0 =~= members_view(result, result.len() as nat));
    }
    result
}

/// Two objects merged key by key, or the upper value where either is no object.
pub fn merge_json_values(base: Json, over: Json) -> (r: Json)
    requires
        json_wf(base),
        json_wf(over),
    ensures
        r@ == merged(base@, over@),
        json_wf(r),
    decreases over, 0nat,
{
    match over {
        Json::Object(upper) => match base {
            Json::Object(lower) => Json::Object(merge_members(lower, upper)),
            _ => Json::Object(upper),
        },
        other => other,
    }
}

/// An object with what it holds under one key put under another, unless it holds that one
/// too. Any other value stays as it is.
pub open spec fn renamed(j: JsonView, from: Seq<char>, to: Seq<char>) -> JsonView {
    match j {
        JsonView::Object(m) => if m.contains_key(from) && !m.contains_key(to) {
            JsonView::Object(m.remove(from).insert(to, m[from]))
        } else {
            j
        },
        _ => j,
    }
}

/// An object with what it holds under one key put under another.
pub fn rename_member(j: Json, from: &str, to: &str) -> (r: Json)
    requires
        json_wf(j),
    ensures
        r@ == renamed(j@, from@, to@),
        json_wf(r),
{
    match j {
        Json::Object(mut members) => {
            let ghost m0 = members;
            proof {
                lemma_members_view(m0, m0.len() as nat);
            }
            let to_place = find_member(&members, to);
            match find_member(&members, from) {
                Some(at) => {
                    if to_place.is_some() {
                        return Json::Object(members);
                    }
                    let taken = members.remove(at);
                    let ghost m1 = members;
                    proof {
                        assert(json_wf(m0[at as int].value));
                        lemma_distinct_removed(m0, m1, at as int);
                        lemma_removed(m0, m1, at as int);
                        assert forall|i: int| 0 <= i < m1@.len() implies (
                        #[trigger] m1@[i]).key@ != to@ by {
                            let j = if i < at { i } else { i + 1 };
                            assert(m1@[i] == m0@[j]);
                            assert(m0@[j].key@ != to@);
                        }
                    }
                    members.push(Member { key: to.to_owned(), value: taken.value });
                    proof {
                        assert(members@.drop_last() =~= m1@);
                        lemma_pushed(m1, members);
                        lemma_wf_pushed(m1, members);
                    }
                    Json::Object(members)
                },
                None => Json::Object(members),
            }
        },
        other => other,
    }
}

/// The value of a key, where the value is an object that holds it.
pub open spec fn member(j: JsonView, key: Seq<char>) -> Option<JsonView> {
    match j {
        JsonView::Object(m) => if m.contains_key(key) {
            Some(m[key])
        } else {
            None
        },
        _ => None,
    }
}

/// The text of a key, where it holds a text.
pub open spec fn str_member(j: JsonView, key: Seq<char>) -> Option<Seq<char>> {
    match member(j, key) {
        Some(JsonView::Str(s)) => Some(s),
        _ => None,
    }
}

/// The truth value of a key, where it holds one.
pub open spec fn bool_member(j: JsonView, key: Seq<char>) -> Option<bool> {
    match member(j, key) {
        Some(JsonView::Bool(b)) => Some(b),
        _ => None,
    }
}

/// The natural number of a key, where it holds one.
pub open spec fn u64_member(j: JsonView, key: Seq<char>) -> Option<u64> {
    match member(j, key) {
        Some(JsonView::Number(Num::Unsigned(n))) => Some(n),
        _ => None,
    }
}

impl Json {
    /// An object without members.
    pub fn object() -> (r: Json)
        ensures
            r is Object,
            r@ == JsonView::Object(Map::empty()),
            json_wf(r),
    {
        let members: Vec<Member> = Vec::new();
        Json::Object(members)
    }

    /// The value of a key.
    pub fn get(&self, key: &str) -> (r: Option<&Json>)
        requires
            json_wf(*self),
        ensures
            match r {
                Some(v) => member(self@, key@) == Some(v@) && json_wf(*v),
                None => member(self@, key@) is None,
            },
    {
        match self {
            Json::Object(members) => {
                proof {
                    lemma_members_view(*members, members.len() as nat);
                }
                match find_member(members, key) {
                    Some(i) => {
                        proof {
                            assert(members[i as int].key@ == key@);
                            assert(json_wf(members[i as int].value));
                        }
                        Some(&members[i].value)
                    },
                    None => None,
                }
            },
            _ => None,
        }
    }

    /// The text of a key.
    pub fn get_str(&self, key: &str) -> (r: Option<&String>)
        requires
            json_wf(*self),
        ensures
            match r {
                Some(s) => str_member(self@, key@) == Some(s@),
                None => str_member(self@, key@) is None,
            },
    {
        match self.get(key) {
            Some(Json::Str(s)) => Some(s),
            _ => None,
        }
    }

    /// The truth value of a key.
    pub fn get_bool(&self, key: &str) -> (r: Option<bool>)
        requires
            json_wf(*self),
        ensures
            r == bool_member(self@, key@),
    {
        match self.get(key) {
            Some(Json::Bool(b)) => Some(*b),
            _ => None,
        }
    }

    /// The natural number of a key.
    pub fn get_u64(&self, key: &str) -> (r: Option<u64>)
        requires
            json_wf(*self),
        ensures
            r == u64_member(self@, key@),
    {
        match self.get(key) {
            Some(Json::Number(Num::Unsigned(n))) => Some(*n),
            _ => None,
        }
    }

    /// An object with one more key, or with a new value for a key that it holds.
    pub fn with(self, key: &str, value: Json) -> (r: Json)
        requires
            json_wf(self),
            self is Object,
            json_wf(value),
        ensures
            r is Object,
            json_wf(r),
            r@ == JsonView::Object(self@->Object_0.insert(key@, value@)),
    {
        match self {
            Json::Object(members) => {
                let ghost m0 = members;
                let ghost map0 = members_view(m0, m0.len() as nat);
                let mut out = members;
                proof {
                    lemma_members_view(m0, m0.len() as nat);
                }
                match find_member(&out, key) {
                    Some(at) => {
                        out.remove(at);
                        proof {
                            lemma_distinct_removed(m0, out, at as int);
                            lemma_removed(m0, out, at as int);
                        }
                    },
                    None => {},
                }
                let ghost m1 = out;
                out.push(Member { key: key.to_owned(), value });
                proof {
                    assert(out@.drop_last() =~= m1@);
                    lemma_pushed(m1, out);
                    lemma_wf_pushed(m1, out);
                    assert(members_view(out, out.len() as nat) =~= map0.insert(key@, value@));
                }
                Json::Object(out)
            },
            other => other,
        }
    }
}

/// Laying a value over another leaves what the upper one does not name.
pub proof fn lemma_merge_keeps_unnamed(
    b: Map<Seq<char>, JsonView>,
    o: Map<Seq<char>, JsonView>,
    key: Seq<char>,
)
    requires
        !o.contains_key(key),
    ensures
        member(merged(JsonView::Object(b), JsonView::Object(o)), key) == member(
            JsonView::Object(b),
            key,
        ),
{
}

/// What the upper value names stands as it is there, unless both values are objects,
/// which are merged in turn.
pub proof fn lemma_merge_takes_named(
    b: Map<Seq<char>, JsonView>,
    o: Map<Seq<char>, JsonView>,
    key: Seq<char>,
)
    requires
        o.contains_key(key),
    ensures
        member(merged(JsonView::Object(b), JsonView::Object(o)), key) == Some(
            if b.contains_key(key) && b[key] is Object && o[key] is Object {
                merged(b[key], o[key])
            } else {
                o[key]
            },
        ),
{
}

/// Of three values laid over each other the last one that names a key decides, unless it
/// holds an object there, which is merged with what lies beneath.
pub proof fn lemma_later_layer_wins(
    defaults: Map<Seq<char>, JsonView>,
    global: Map<Seq<char>, JsonView>,
    project: Map<Seq<char>, JsonView>,
    key: Seq<char>,
)
    ensures
        ({
            let all = merged(
                merged(JsonView::Object(defaults), JsonView::Object(global)),
                JsonView::Object(project),
            );
            &&& project.contains_key(key) && !(project[key] is Object) ==> member(all, key) == Some(
                project[key],
            )
            &&& !project.contains_key(key) && global.contains_key(key) && !(global[key] is Object)
                ==> member(all, key) == Some(global[key])
            &&& !project.contains_key(key) && !global.contains_key(key) ==> member(all, key)
                == member(JsonView::Object(defaults), key)
        }),
{
    let mid = merged(JsonView::Object(defaults), JsonView::Object(global))->Object_0;
    if project.contains_key(key) {
        lemma_merge_takes_named(mid, project, key);
    } else {
        lemma_merge_keeps_unnamed(mid, project, key);
        if global.contains_key(key) {
            lemma_merge_takes_named(defaults, global, key);
        } else {
            lemma_merge_keeps_unnamed(defaults, global, key);
        }
    }
}

/// Laying the same value over twice changes nothing more.
pub proof fn lemma_merge_idempotent(base: JsonView, over: JsonView)
    ensures
        merged(merged(base, over), over) == merged(base, over),
    decreases over,
{
    match (base, over) {
        (JsonView::Object(b), JsonView::Object(o)) => {
            let once = merged(base, over)->Object_0;
            let twice = merged(merged(base, over), over)->Object_0;
            assert forall|k: Seq<char>| o.contains_key(k) implies twice[k] == once[k] by {
                if b.contains_key(k) {
                    lemma_merge_idempotent(b[k], o[k]);
                } else {
                    lemma_merge_self(o[k]);
                }
            }
            assert(twice =~= once);
        },
        (_, JsonView::Object(o)) => {
            lemma_merge_self(over);
        },
        _ => {},
    }
}

/// A value laid over itself is that value.
pub proof fn lemma_merge_self(value: JsonView)
    ensures
        merged(value, value) == value,
    decreases value,
{
    match value {
        JsonView::Object(m) => {
            assert forall|k: Seq<char>| m.contains_key(k) implies merged(m[k], m[k]) == m[k] by {
                lemma_merge_self(m[k]);
            }
            assert(merged(value, value)->Object_0 =~= m);
        },
        _ => {},
    }
}

/// A TOML value. A number with a fraction or an exponent is held by the bits of its
/// double-precision value, a date by its text.
#[derive(Debug)]
pub enum Toml {
    Str(String),
    Integer(i64),
    Float(u64),
    Boolean(bool),
    Datetime(String),
    Array(Vec<Toml>),
    Table(Vec<TomlMember>),
}

/// A key of a table with its value.
#[derive(Debug)]
pub struct TomlMember {
    pub key: String,
    pub value: Toml,
}

/// Whether no table in the value holds a key twice.
pub open spec fn toml_wf(t: Toml) -> bool
    decreases t, 0nat,
{
    match t {
        Toml::Array(items) => toml_items_wf(items, items.len() as nat),
        Toml::Table(members) => {
            &&& forall|i: int, j: int|
                0 <= i < j < members.len() ==> (#[trigger] members[i]).key@ != (
                #[trigger] members[j]).key@
            &&& forall|i: int|
                #![trigger members[i]]
                0 <= i < members.len() ==> toml_wf(members[i].value)
        },
        _ => true,
    }
}

/// Whether no table in the first `n` items holds a key twice.
pub open spec fn toml_items_wf(items: Vec<Toml>, n: nat) -> bool
    decreases items, n,
{
    n == 0 || n > items.len() || (toml_items_wf(items, (n - 1) as nat) && toml_wf(items[n - 1]))
}

proof fn lemma_toml_item_wf(items: Vec<Toml>, n: nat, i: int)
    requires
        toml_items_wf(items, n),
        0 <= i < n <= items.len(),
    ensures
        toml_wf(items[i]),
    decreases n,
{
    if i < n - 1 {
        lemma_toml_item_wf(items, (n - 1) as nat, i);
    }
}

/// Whether the bits of a double-precision value stand for a finite number.
pub open spec fn finite_bits(bits: u64) -> bool {
    (bits / 0x10_0000_0000_0000) % 0x800 != 0x7ff
}

/// The view of a [`Toml`] value: a table is a map from its keys.
#[verifier::ext_equal]
pub enum TomlView {
    Str(Seq<char>),
    Integer(i64),
    Float(u64),
    Boolean(bool),
    Datetime(Seq<char>),
    Array(Seq<TomlView>),
    Table(Map<Seq<char>, TomlView>),
}

/// The view of a TOML value.
pub open spec fn toml_view(t: Toml) -> TomlView
    decreases t, 0nat,
{
    match t {
        Toml::Str(s) => TomlView::Str(s@),
        Toml::Integer(i) => TomlView::Integer(i),
        Toml::Float(bits) => TomlView::Float(bits),
        Toml::Boolean(b) => TomlView::Boolean(b),
        Toml::Datetime(s) => TomlView::Datetime(s@),
        Toml::Array(items) => TomlView::Array(toml_items_view(items, items.len() as nat)),
        Toml::Table(members) => TomlView::Table(
            toml_members_view(members, members.len() as nat),
        ),
    }
}

/// The views of the first `n` items.
pub open spec fn toml_items_view(items: Vec<Toml>, n: nat) -> Seq<TomlView>
    decreases items, n,
{
    if n == 0 || n > items.len() {
        Seq::empty()
    } else {
        toml_items_view(items, (n - 1) as nat).push(toml_view(items[n - 1]))
    }
}

/// The map that the first `n` members make.
pub open spec fn toml_members_view(members: Vec<TomlMember>, n: nat) -> Map<Seq<char>, TomlView>
    decreases members, n,
{
    if n == 0 || n > members.len() {
        Map::empty()
    } else {
        toml_members_view(members, (n - 1) as nat).insert(
            members[n - 1].key@,
            toml_view(members[n - 1].value),
        )
    }
}

impl View for Toml {
    type V = TomlView;

    open spec fn view(&self) -> TomlView {
        toml_view(*self)
    }
}

/// The JSON value that a TOML value stands for.
pub open spec fn toml_as_json(t: TomlView) -> JsonView
    decreases t,
{
    match t {
        TomlView::Str(s) => JsonView::Str(s),
        TomlView::Integer(i) => JsonView::Number(
            if i >= 0 {
                Num::Unsigned(i as u64)
            } else {
                Num::Negative(i)
            },
        ),
        TomlView::Float(bits) => if finite_bits(bits) {
            JsonView::Number(Num::Float(bits))
        } else {
            JsonView::Null
        },
        TomlView::Boolean(b) => JsonView::Bool(b),
        TomlView::Datetime(s) => JsonView::Str(s),
        TomlView::Array(items) => JsonView::Array(
            Seq::new(
                items.len(),
                |i: int|
                    if 0 <= i < items.len() {
                        toml_as_json(items[i])
                    } else {
                        JsonView::Null
                    },
            ),
        ),
        TomlView::Table(members) => JsonView::Object(
            Map::new(
                |k: Seq<char>| members.contains_key(k),
                |k: Seq<char>|
                    if members.contains_key(k) {
                        toml_as_json(members[k])
                    } else {
                        JsonView::Null
                    },
            ),
        ),
    }
}

/// The JSON values of the first items, item by item.
proof fn lemma_toml_items(items: Vec<Toml>, n: nat)
    requires
        n <= items.len(),
    ensures
        toml_items_view(items, n).len() == n,
        forall|i: int| 0 <= i < n ==> #[trigger] toml_items_view(items, n)[i] == toml_view(items[i]),
    decreases n,
{
    if n > 0 {
        lemma_toml_items(items, (n - 1) as nat);
    }
}

proof fn lemma_items_view_prefix(a: Vec<Json>, b: Vec<Json>, n: nat)
    requires
        n <= a.len(),
        n <= b.len(),
        forall|i: int| 0 <= i < n ==> a[i] == b[i],
    ensures
        items_view(a, n) == items_view(b, n),
        items_wf(a, n) == items_wf(b, n),
    decreases n,
{
    if n > 0 {
        lemma_items_view_prefix(a, b, (n - 1) as nat);
    }
}

/// The JSON value that a TOML value stands for. A number that is not finite has none
/// and becomes null.
pub fn toml_value_to_json(t: &Toml) -> (r: Json)
    requires
        toml_wf(*t),
    ensures
        r@ == toml_as_json(t@),
        json_wf(r),
    decreases *t,
{
    match t {
        Toml::Str(s) => Json::Str(s.clone()),
        Toml::Integer(i) => {
            if *i >= 0 {
                Json::Number(Num::Unsigned(*i as u64))
            } else {
                Json::Number(Num::Negative(*i))
            }
        },
        Toml::Float(bits) => {
            if (*bits / 0x10_0000_0000_0000) % 0x800 != 0x7ff {
                Json::Number(Num::Float(*bits))
            } else {
                Json::Null
            }
        },
        Toml::Boolean(b) => Json::Bool(*b),
        Toml::Datetime(s) => Json::Str(s.clone()),
        Toml::Array(items) => {
            let mut out: Vec<Json> = Vec::new();
            let mut i: usize = 0;
            proof {
                let wanted = toml_as_json(TomlView::Array(toml_items_view(*items, 0)));
                assert(items_view(out, 0) =~= wanted->Array_0);
            }
            while i < items.len()
                invariant
                    *t == Toml::Array(*items),
                    toml_wf(*t),
                    i <= items@.len(),
                    out@.len() == i,
                    JsonView::Array(items_view(out, i as nat)) == toml_as_json(
                        TomlView::Array(toml_items_view(*items, i as nat)),
                    ),
                    items_wf(out, i as nat),
                decreases items@.len() - i,
            {
                let ghost before = out;
                proof {
                    lemma_toml_item_wf(*items, items.len() as nat, i as int);
                    assert(decreases_to!(*items => items[i as int]));
                    assert(decreases_to!(*t => *items));
                }
                let v = toml_value_to_json(&items[i]);
                out.push(v);
                proof {
                    lemma_items_view_prefix(out, before, i as nat);
                    lemma_toml_items(*items, i as nat);
                    lemma_toml_items(*items, (i + 1) as nat);
                    let wanted = toml_as_json(
                        TomlView::Array(toml_items_view(*items, (i + 1) as nat)),
                    );
                    assert(items_view(out, (i + 1) as nat) =~= wanted->Array_0);
                }
                i += 1;
            }
            Json::Array(out)
        },
        Toml::Table(members) => {
            let mut out: Vec<Member> = Vec::new();
            let mut i: usize = 0;
            proof {
                let wanted = toml_as_json(TomlView::Table(toml_members_view(*members, 0)));
                assert(members_view(out, 0) =~= wanted->Object_0);
            }
            while i < members.len()
                invariant
                    *t == Toml::Table(*members),
                    toml_wf(*t),
                    i <= members@.len(),
                    out@.len() == i,
                    JsonView::Object(members_view(out, i as nat)) == toml_as_json(
                        TomlView::Table(toml_members_view(*members, i as nat)),
                    ),
                    forall|j: int| 0 <= j < i ==> (#[trigger] out@[j]).key@ == members[j].key@,
                    json_wf(Json::Object(out)),
                decreases members@.len() - i,
            {
                let ghost before = out;
                proof {
                    assert(toml_wf(members[i as int].value));
                    assert(decreases_to!(*members => members[i as int]));
                }
                let v = toml_value_to_json(&members[i].value);
                out.push(Member { key: members[i].key.clone(), value: v });
                proof {
                    assert(out@.drop_last() =~= before@);
                    lemma_members_view_prefix(out, before, i as nat);
                    let wanted = toml_as_json(
                        TomlView::Table(toml_members_view(*members, (i + 1) as nat)),
                    );
                    assert(members_view(out, (i + 1) as nat) =~= wanted->Object_0);
                    assert forall|j: int| 0 <= j < before@.len() implies (
                    #[trigger] before@[j]).key@ != out@.last().key@ by {
                        assert(members[j].key@ != members[i as int].key@);
                    }
                    lemma_wf_pushed(before, out);
                    assert forall|j: int| 0 <= j < i + 1 implies (#[trigger] out@[j]).key@
                        == members[j].key@ by {
                        if j < i {
                            assert(out@[j] == before@[j]);
                        }
                    }
                }
                i += 1;
            }
            Json::Object(out)
        },
    }
}

/// What an object holds under a former key goes under the new one, unless that one is there;
/// every other key keeps what it holds.
pub proof fn lemma_renamed_moves_value(
    m: Map<Seq<char>, JsonView>,
    from: Seq<char>,
    to: Seq<char>,
    key: Seq<char>,
)
    requires
        from != to,
    ensures
        renamed(JsonView::Object(m), from, to) is Object,
        m.contains_key(from) && !m.contains_key(to) ==> {
            &&& member(renamed(JsonView::Object(m), from, to), to) == Some(m[from])
            &&& member(renamed(JsonView::Object(m), from, to), from) is None
        },
        !m.contains_key(from) || m.contains_key(to) ==> renamed(JsonView::Object(m), from, to)
            == JsonView::Object(m),
        key != from && key != to ==> member(renamed(JsonView::Object(m), from, to), key)
            == if m.contains_key(key) {
            Some(m[key])
        } else {
            None
        },
{
}

/// The value under a key is read as a text, a truth value or a natural number exactly where
/// it is one.
pub proof fn lemma_members_by_kind(j: JsonView, key: Seq<char>)
    ensures
        member(j, key) is Some <==> j is Object && j->Object_0.contains_key(key),
        member(j, key) is Some ==> member(j, key)->0 == j->Object_0[key],
        forall|s: Seq<char>|
            str_member(j, key) == Some(s) <==> j is Object && j->Object_0.contains_key(key)
                && j->Object_0[key] == JsonView::Str(s),
        forall|b: bool|
            bool_member(j, key) == Some(b) <==> j is Object && j->Object_0.contains_key(key)
                && j->Object_0[key] == JsonView::Bool(b),
        forall|n: u64|
            u64_member(j, key) == Some(n) <==> j is Object && j->Object_0.contains_key(key)
                && j->Object_0[key] == JsonView::Number(Num::Unsigned(n)),
{
}

/// A TOML value keeps its shape as a JSON value: a list its items at their places, a table
/// its keys with their values.
pub proof fn lemma_toml_keeps_shape(t: TomlView)
    ensures
        forall|items: Seq<TomlView>|
            t == TomlView::Array(items) ==> {
                &&& toml_as_json(t) is Array
                &&& toml_as_json(t)->Array_0.len() == items.len()
                &&& forall|i: int|
                    0 <= i < items.len() ==> #[trigger] toml_as_json(t)->Array_0[i] == toml_as_json(
                        items[i],
                    )
            },
        forall|members: Map<Seq<char>, TomlView>|
            t == TomlView::Table(members) ==> {
                &&& toml_as_json(t) is Object
                &&& toml_as_json(t)->Object_0.dom() == members.dom()
                &&& forall|k: Seq<char>|
                    members.contains_key(k) ==> #[trigger] toml_as_json(t)->Object_0[k]
                        == toml_as_json(members[k])
            },
        forall|s: Seq<char>|
            t == TomlView::Str(s) || t == TomlView::Datetime(s) ==> toml_as_json(t)
                == JsonView::Str(s),
        forall|b: bool| t == TomlView::Boolean(b) ==> toml_as_json(t) == JsonView::Bool(b),
        forall|i: i64|
            t == TomlView::Integer(i) ==> toml_as_json(t) == JsonView::Number(
                if i >= 0 {
                    Num::Unsigned(i as u64)
                } else {
                    Num::Negative(i)
                },
            ),
{
    if let TomlView::Table(members) = t {
        assert(toml_as_json(t)->Object_0.dom() =~= members.dom());
    }
}

/// Where either of two values is no object, the one that is laid over stands; two objects
/// come to an object.
pub proof fn lemma_merge_of_plain_values(base: JsonView, over: JsonView)
    ensures
        !(base is Object) || !(over is Object) ==> merged(base, over) == over,
        base is Object && over is Object ==> merged(base, over) is Object,
{
}

proof fn lemma_items_one_by_one(items: Vec<Json>, n: nat)
    requires
        n <= items.len(),
    ensures
        items_view(items, n).len() == n,
        forall|i: int| 0 <= i < n ==> #[trigger] items_view(items, n)[i] == json_view(items[i]),
    decreases n,
{
    if n > 0 {
        let m = (n - 1) as nat;
        lemma_items_one_by_one(items, m);
        assert forall|i: int| 0 <= i < n implies #[trigger] items_view(items, n)[i] == json_view(
            items[i],
        ) by {
            if i < m {
                assert(items_view(items, m)[i] == json_view(items[i]));
            }
        }
    }
}

/// A value is seen by its kind: a list item by item, an object key by key, where no key
/// stands in it twice.
pub proof fn lemma_json_view_tells(j: Json)
    ensures
        j is Null ==> j@ is Null,
        j matches Json::Bool(b) ==> j@ == JsonView::Bool(b),
        j matches Json::Number(n) ==> j@ == JsonView::Number(n),
        j matches Json::Str(s) ==> j@ == JsonView::Str(s@),
        j matches Json::Array(items) ==> {
            &&& j@ is Array
            &&& j@->Array_0.len() == items@.len()
            &&& forall|i: int| 0 <= i < items@.len() ==> #[trigger] j@->Array_0[i] == items@[i]@
        },
        j matches Json::Object(members) ==> j@ is Object && (keys_distinct(members@) ==> {
            &&& forall|i: int|
                0 <= i < members@.len() ==> j@->Object_0.contains_key(
                    (#[trigger] members@[i]).key@,
                ) && j@->Object_0[members@[i].key@] == members@[i].value@
            &&& forall|k: Seq<char>| #[trigger]
                j@->Object_0.contains_key(k) ==> exists|i: int|
                    0 <= i < members@.len() && (#[trigger] members@[i]).key@ == k
        }),
{
    match j {
        Json::Array(items) => {
            lemma_items_one_by_one(items, items.len() as nat);
            assert forall|i: int| 0 <= i < items@.len() implies #[trigger] j@->Array_0[i]
                == items@[i]@ by {
                assert(items_view(items, items.len() as nat)[i] == json_view(items[i]));
            }
        },
        Json::Object(members) => {
            if keys_distinct(members@) {
                lemma_members_view(members, members.len() as nat);
                assert forall|i: int| 0 <= i < members@.len() implies j@->Object_0.contains_key(
                    (#[trigger] members@[i]).key@,
                ) && j@->Object_0[members@[i].key@] == members@[i].value@ by {
                    assert(members[i] == members@[i]);
                }
                assert forall|k: Seq<char>| #[trigger]
                    j@->Object_0.contains_key(k) implies exists|i: int|
                    0 <= i < members@.len() && (#[trigger] members@[i]).key@ == k by {
                    let i = choose|i: int|
                        0 <= i < members.len() && #[trigger] members[i].key@ == k;
                    assert(members@[i].key@ == k);
                }
            }
        },
        _ => {},
    }
}

} // verus!
