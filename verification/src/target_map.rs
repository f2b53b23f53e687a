//! A map from hosts to the paths to ask them for, in the order of the hosts.
use crate::order::{
    compare_text, lemma_text_less_irreflexive, lemma_text_less_total, lemma_text_less_transitive,
    text_less, Order,
};
use crate::target::{HostKey, TargetHost};
use crate::text::texts;
use vstd::prelude::*;

verus! {

/// Whether the host `a` comes before the host `b`: by scheme, then by host, port, user and
/// password.
pub open spec fn host_less(a: HostKey, b: HostKey) -> bool {
    if a.scheme != b.scheme {
        text_less(a.scheme, b.scheme)
    } else if a.host != b.host {
        text_less(a.host, b.host)
    } else if a.port != b.port {
        a.port < b.port
    } else if a.user != b.user {
        text_less(a.user, b.user)
    } else {
        text_less(a.password, b.password)
    }
}

/// No host comes before itself.
pub proof fn lemma_host_less_irreflexive(a: HostKey)
    ensures
        !host_less(a, a),
{
    lemma_text_less_irreflexive(a.password);
}

/// What comes before a host comes before everything that this comes before.
pub proof fn lemma_host_less_transitive(a: HostKey, b: HostKey, c: HostKey)
    requires
        host_less(a, b),
        host_less(b, c),
    ensures
        host_less(a, c),
{
    lemma_chain(a.scheme, b.scheme, c.scheme);
    lemma_chain(a.host, b.host, c.host);
    lemma_chain(a.user, b.user, c.user);
    lemma_chain(a.password, b.password, c.password);
}

proof fn lemma_chain(a: Seq<char>, b: Seq<char>, c: Seq<char>)
    ensures
        text_less(a, b) && text_less(b, c) ==> text_less(a, c),
        !text_less(a, a),
        !text_less(b, b),
        !text_less(c, c),
        text_less(a, b) ==> !text_less(b, a),
{
    lemma_text_less_irreflexive(a);
    lemma_text_less_irreflexive(b);
    lemma_text_less_irreflexive(c);
    if text_less(a, b) && text_less(b, c) {
        lemma_text_less_transitive(a, b, c);
    }
    if text_less(a, b) && text_less(b, a) {
        lemma_text_less_transitive(a, b, a);
    }
}

/// How two hosts are ordered.
pub fn compare_hosts(a: &TargetHost, b: &TargetHost) -> (r: Order)
    ensures
        match r {
            Order::Less => host_less(a@, b@),
            Order::Equal => a@ == b@,
            Order::Greater => host_less(b@, a@),
        },
{
    proof {
        lemma_text_less_irreflexive(a.0@);
        lemma_text_less_irreflexive(a.1@);
        lemma_text_less_irreflexive(a.3.0@);
    }
    match compare_text(a.0.as_str(), b.0.as_str()) {
        Order::Equal => {},
        order => return order,
    }
    match compare_text(a.1.as_str(), b.1.as_str()) {
        Order::Equal => {},
        order => return order,
    }
    if a.2 < b.2 {
        return Order::Less;
    }
    if b.2 < a.2 {
        return Order::Greater;
    }
    match compare_text(a.3.0.as_str(), b.3.0.as_str()) {
        Order::Equal => {},
        order => return order,
    }
    compare_text(a.3.1.as_str(), b.3.1.as_str())
}

/// A host with the first URL that named it and the paths that were asked for on it.
pub type TargetGroup = (TargetHost, (String, Vec<String>));

/// The URL and the paths of one host, as text.
pub type GroupText = (Seq<char>, Seq<Seq<char>>);

/// A host with its URL and its paths, as text.
pub open spec fn group_text(group: TargetGroup) -> (HostKey, GroupText) {
    (group.0@, (group.1.0@, texts(group.1.1@)))
}

/// Hosts with their URLs and their paths, as text.
pub open spec fn group_texts(entries: Seq<TargetGroup>) -> Seq<(HostKey, GroupText)> {
    entries.map_values(|group: TargetGroup| group_text(group))
}

/// Whether the hosts of `groups` are in ascending order, so that no host occurs twice.
pub open spec fn ascending(groups: Seq<(HostKey, GroupText)>) -> bool {
    forall|i: int, j: int|
        0 <= i < j < groups.len() ==> host_less(#[trigger] groups[i].0, #[trigger] groups[j].0)
}

/// Whether the host `key` occurs in `groups`.
pub open spec fn has_host(groups: Seq<(HostKey, GroupText)>, key: HostKey) -> bool {
    exists|i: int| 0 <= i < groups.len() && (#[trigger] groups[i]).0 == key
}

/// `groups` as a map from hosts to what stands for them.
pub open spec fn group_map(groups: Seq<(HostKey, GroupText)>) -> Map<HostKey, GroupText> {
    Map::new(
        |key: HostKey| has_host(groups, key),
        |key: HostKey|
            groups[choose|i: int| 0 <= i < groups.len() && (#[trigger] groups[i]).0 == key].1,
    )
}

/// In ascending groups, each group is what the map holds for its host.
pub proof fn lemma_group_map(groups: Seq<(HostKey, GroupText)>)
    requires
        ascending(groups),
    ensures
        forall|i: int|
            0 <= i < groups.len() ==> group_map(groups).contains_key((#[trigger] groups[i]).0)
                && group_map(groups)[groups[i].0] == groups[i].1,
        forall|key: HostKey|
            #[trigger] group_map(groups).contains_key(key) <==> has_host(groups, key),
{
    assert forall|i: int| 0 <= i < groups.len() implies group_map(groups).contains_key(
        (#[trigger] groups[i]).0,
    ) && group_map(groups)[groups[i].0] == groups[i].1 by {
        let key = groups[i].0;
        let found = choose|j: int| 0 <= j < groups.len() && (#[trigger] groups[j]).0 == key;
        assert(0 <= found < groups.len() && groups[found].0 == key);
        lemma_host_less_irreflexive(key);
        assert(found == i);
    }
}

/// A map with `path` put down for `key`, at the end of its paths; `url` is put down with the first
/// of them.
pub open spec fn recorded(
    map: Map<HostKey, GroupText>,
    key: HostKey,
    url: Seq<char>,
    path: Seq<char>,
) -> Map<HostKey, GroupText> {
    if map.contains_key(key) {
        map.insert(key, (map[key].0, map[key].1.push(path)))
    } else {
        map.insert(key, (url, seq![path]))
    }
}

/// A map from hosts to the paths to ask them for. The hosts are kept in ascending order, and each
/// occurs once.
pub struct TargetMap {
    entries: Vec<TargetGroup>,
}

impl View for TargetMap {
    type V = Map<HostKey, GroupText>;

    open spec fn view(&self) -> Map<HostKey, GroupText> {
        group_map(self.groups())
    }
}

impl TargetMap {
    #[verifier::type_invariant]
    spec fn inv(&self) -> bool {
        ascending(self.groups())
    }

    /// The hosts with what is put down for them, in the order in which they are kept.
    pub closed spec fn groups(&self) -> Seq<(HostKey, GroupText)> {
        group_texts(self.entries@)
    }

    /// A map without hosts.
    pub fn new() -> (r: TargetMap)
        ensures
            r@ == Map::<HostKey, GroupText>::empty(),
    {
        let entries: Vec<TargetGroup> = Vec::new();
        assert(group_texts(entries@) == Seq::<(HostKey, GroupText)>::empty());
        TargetMap { entries }
    }

    /// Puts `path` down for `host`, at the end of its paths; `url` with the first of them.
    pub fn record(&mut self, host: TargetHost, url: &str, path: &str)
        ensures
            final(self)@ == recorded(old(self)@, host@, url@, path@),
    {
        proof {
            use_type_invariant(&*self);
        }
        let ghost before = self.groups();
        let ghost key = host@;
        let mut entries: Vec<TargetGroup> = Vec::new();
        assert(group_texts(entries@) == Seq::<(HostKey, GroupText)>::empty());
        std::mem::swap(&mut entries, &mut self.entries);
        let (at, found) = position(&entries, &host);
        if found {
            entries[at].1.1.push(path.to_owned());
            proof {
                let value = (before[at as int].1.0, before[at as int].1.1.push(path@));
                assert(texts(entries@[at as int].1.1@) == value.1);
                assert(group_texts(entries@) == before.update(at as int, (key, value)));
                lemma_group_map(before);
                lemma_replace(before, at as int, value);
            }
        } else {
            let mut paths: Vec<String> = Vec::new();
            paths.push(path.to_owned());
            assert(texts(paths@) == seq![path@]);
            entries.insert(at, (host, (url.to_owned(), paths)));
            proof {
                let value = (url@, seq![path@]);
                assert(group_texts(entries@) == before.insert(at as int, (key, value)));
                lemma_insert(before, at as int, key, value);
            }
        }
        self.entries = entries;
    }

    /// The hosts with what is put down for them, in ascending order.
    pub fn into_entries(self) -> (r: Vec<TargetGroup>)
        ensures
            group_texts(r@) == self.groups(),
            ascending(group_texts(r@)),
            group_map(group_texts(r@)) == self@,
    {
        proof {
            use_type_invariant(&self);
        }
        self.entries
    }
}

/// The number of hosts that come before `host`, and whether it is the next one.
fn position(entries: &Vec<TargetGroup>, host: &TargetHost) -> (r: (usize, bool))
    requires
        ascending(group_texts(entries@)),
    ensures
        r.0 <= entries@.len(),
        forall|i: int| 0 <= i < r.0 ==> host_less((#[trigger] group_texts(entries@)[i]).0, host@),
        r.1 ==> r.0 < entries@.len() && group_texts(entries@)[r.0 as int].0 == host@,
        !r.1 ==> forall|i: int|
            r.0 <= i < entries@.len() ==> host_less(
                host@,
                (#[trigger] group_texts(entries@)[i]).0,
            ),
{
    let ghost groups = group_texts(entries@);
    let mut i: usize = 0;
    while i < entries.len()
        invariant
            groups == group_texts(entries@),
            ascending(groups),
            i <= entries.len(),
            forall|k: int| 0 <= k < i ==> host_less((#[trigger] groups[k]).0, host@),
        decreases entries.len() - i,
    {
        let order = compare_hosts(&entries[i].0, host);
        assert(groups[i as int].0 == entries@[i as int].0@);
        match order {
            Order::Less => {},
            Order::Equal => {
                return (i, true);
            },
            Order::Greater => {
                assert forall|k: int| i <= k < groups.len() implies host_less(
                    host@,
                    (#[trigger] groups[k]).0,
                ) by {
                    if k > i {
                        lemma_host_less_transitive(host@, groups[i as int].0, groups[k].0);
                    }
                }
                return (i, false);
            },
        }
        i = i + 1;
    }
    (i, false)
}

/// The order of hosts is a strict and total one.
pub proof fn law_hosts_are_ordered(a: HostKey, b: HostKey, c: HostKey)
    ensures
        !host_less(a, a),
        a == b || host_less(a, b) || host_less(b, a),
        host_less(a, b) && host_less(b, c) ==> host_less(a, c),
{
    lemma_host_less_irreflexive(a);
    lemma_text_less_total(a.scheme, b.scheme);
    lemma_text_less_total(a.host, b.host);
    lemma_text_less_total(a.user, b.user);
    lemma_text_less_total(a.password, b.password);
    if host_less(a, b) && host_less(b, c) {
        lemma_host_less_transitive(a, b, c);
    }
}

/// The groups in ascending order are determined by what is put down for each host.
pub proof fn law_groups_are_determined(
    a: Seq<(HostKey, GroupText)>,
    b: Seq<(HostKey, GroupText)>,
)
    requires
        ascending(a),
        ascending(b),
        group_map(a) == group_map(b),
    ensures
        a == b,
    decreases a.len(),
{
    if a.len() == 0 || b.len() == 0 {
        lemma_no_groups(a, b);
        lemma_no_groups(b, a);
    } else {
        lemma_first_group(a, b);
        lemma_group_map_rest(a);
        lemma_group_map_rest(b);
        law_groups_are_determined(a.drop_first(), b.drop_first());
        assert(a == seq![a[0]] + a.drop_first());
        assert(b == seq![b[0]] + b.drop_first());
    }
}

/// Groups for the same map as no groups are none.
proof fn lemma_no_groups(a: Seq<(HostKey, GroupText)>, b: Seq<(HostKey, GroupText)>)
    requires
        ascending(a),
        ascending(b),
        group_map(a) == group_map(b),
        a.len() == 0 || b.len() == 0,
    ensures
        a.len() == 0,
{
    if a.len() > 0 {
        lemma_group_map(a);
        assert(group_map(b).contains_key(a[0].0));
        assert(has_host(b, a[0].0));
    }
}

/// Ascending groups for the same map start with the same group.
proof fn lemma_first_group(a: Seq<(HostKey, GroupText)>, b: Seq<(HostKey, GroupText)>)
    requires
        ascending(a),
        ascending(b),
        group_map(a) == group_map(b),
        a.len() > 0,
        b.len() > 0,
    ensures
        a[0] == b[0],
{
    let ka = a[0].0;
    let kb = b[0].0;
    lemma_group_map(a);
    lemma_group_map(b);
    assert(has_host(b, ka));
    assert(has_host(a, kb));
    let j = choose|j: int| 0 <= j < b.len() && (#[trigger] b[j]).0 == ka;
    let i = choose|i: int| 0 <= i < a.len() && (#[trigger] a[i]).0 == kb;
    if ka != kb {
        assert(host_less(b[0].0, b[j].0));
        assert(host_less(a[0].0, a[i].0));
        lemma_host_less_transitive(ka, kb, ka);
        lemma_host_less_irreflexive(ka);
    }
}

/// Without its first group, ascending groups stand for the map without the first host.
proof fn lemma_group_map_rest(groups: Seq<(HostKey, GroupText)>)
    requires
        ascending(groups),
        groups.len() > 0,
    ensures
        ascending(groups.drop_first()),
        group_map(groups.drop_first()) == group_map(groups).remove(groups[0].0),
{
    let rest = groups.drop_first();
    let wanted = group_map(groups).remove(groups[0].0);
    assert(forall|i: int| 0 <= i < rest.len() ==> #[trigger] rest[i] == groups[i + 1]);
    lemma_group_map(groups);
    lemma_group_map(rest);
    lemma_host_less_irreflexive(groups[0].0);
    assert forall|k: HostKey| group_map(rest).contains_key(k) == wanted.contains_key(k) by {
        if wanted.contains_key(k) {
            let i = choose|i: int| 0 <= i < groups.len() && (#[trigger] groups[i]).0 == k;
            assert(rest[i - 1].0 == k);
        }
        if has_host(rest, k) {
            let i = choose|i: int| 0 <= i < rest.len() && (#[trigger] rest[i]).0 == k;
            assert(groups[i + 1].0 == k);
            assert(host_less(groups[0].0, groups[i + 1].0));
        }
    }
    assert forall|k: HostKey| #[trigger] group_map(rest).contains_key(k) implies group_map(rest)[k]
        == wanted[k] by {
        let i = choose|i: int| 0 <= i < rest.len() && (#[trigger] rest[i]).0 == k;
        assert(groups[i + 1].0 == k);
    }
    assert(group_map(rest) =~= wanted);
}

/// To replace what stands for a host is to insert it into the map.
proof fn lemma_replace(groups: Seq<(HostKey, GroupText)>, at: int, value: GroupText)
    requires
        ascending(groups),
        0 <= at < groups.len(),
    ensures
        ascending(groups.update(at, (groups[at].0, value))),
        group_map(groups.update(at, (groups[at].0, value))) == group_map(groups).insert(
            groups[at].0,
            value,
        ),
{
    let key = groups[at].0;
    let after = groups.update(at, (key, value));
    assert(forall|i: int| 0 <= i < groups.len() ==> (#[trigger] after[i]).0 == groups[i].0);
    assert forall|i: int, j: int| 0 <= i < j < after.len() implies host_less(
        #[trigger] after[i].0,
        #[trigger] after[j].0,
    ) by {
        assert(host_less(groups[i].0, groups[j].0));
    }
    lemma_group_map(groups);
    lemma_group_map(after);
    let wanted = group_map(groups).insert(key, value);
    assert forall|k: HostKey| group_map(after).contains_key(k) == wanted.contains_key(k) by {
        if has_host(groups, k) {
            let i = choose|i: int| 0 <= i < groups.len() && (#[trigger] groups[i]).0 == k;
            assert(after[i].0 == k);
        }
        if has_host(after, k) {
            let i = choose|i: int| 0 <= i < after.len() && (#[trigger] after[i]).0 == k;
            assert(groups[i].0 == k);
        }
    }
    assert forall|k: HostKey| #[trigger] group_map(after).contains_key(k) implies group_map(after)[k]
        == wanted[k] by {
        let i = choose|i: int| 0 <= i < after.len() && (#[trigger] after[i]).0 == k;
        assert(groups[i].0 == k);
        if k == key {
            lemma_host_less_irreflexive(key);
            assert(i == at);
        }
    }
    assert(group_map(after) =~= wanted);
}

/// To put a new host between those that come before and behind it is to insert it into the map.
proof fn lemma_insert(
    groups: Seq<(HostKey, GroupText)>,
    at: int,
    key: HostKey,
    value: GroupText,
)
    requires
        ascending(groups),
        0 <= at <= groups.len(),
        forall|i: int| 0 <= i < at ==> host_less((#[trigger] groups[i]).0, key),
        forall|i: int| at <= i < groups.len() ==> host_less(key, (#[trigger] groups[i]).0),
    ensures
        !group_map(groups).contains_key(key),
        ascending(groups.insert(at, (key, value))),
        group_map(groups.insert(at, (key, value))) == group_map(groups).insert(key, value),
{
    let after = groups.insert(at, (key, value));
    lemma_host_less_irreflexive(key);
    assert forall|i: int, j: int| 0 <= i < j < after.len() implies host_less(
        #[trigger] after[i].0,
        #[trigger] after[j].0,
    ) by {
        let i0 = if i < at { i } else { i - 1 };
        let j0 = if j < at { j } else { j - 1 };
        assert(i != at ==> after[i] == groups[i0]);
        assert(j != at ==> after[j] == groups[j0]);
    }
    lemma_group_map(groups);
    lemma_group_map(after);
    let wanted = group_map(groups).insert(key, value);
    assert(after[at].0 == key);
    assert forall|k: HostKey| group_map(after).contains_key(k) == wanted.contains_key(k) by {
        if has_host(groups, k) {
            let i = choose|i: int| 0 <= i < groups.len() && (#[trigger] groups[i]).0 == k;
            let moved = if i < at { i } else { i + 1 };
            assert(after[moved].0 == k);
        }
        if has_host(after, k) {
            let i = choose|i: int| 0 <= i < after.len() && (#[trigger] after[i]).0 == k;
            if i != at {
                let i0 = if i < at { i } else { i - 1 };
                assert(groups[i0].0 == k);
            }
        }
    }
    assert forall|k: HostKey| #[trigger] group_map(after).contains_key(k) implies group_map(after)[k]
        == wanted[k] by {
        let i = choose|i: int| 0 <= i < after.len() && (#[trigger] after[i]).0 == k;
        if i != at {
            let i0 = if i < at { i } else { i - 1 };
            assert(groups[i0] == after[i]);
        }
    }
    assert(group_map(after) =~= wanted);
}

/// Hosts are ordered by the first field in which they differ: scheme, host, port, user, password.
pub proof fn law_order_of_fields(a: HostKey, b: HostKey)
    ensures
        text_less(a.scheme, b.scheme) ==> host_less(a, b),
        a.scheme == b.scheme && text_less(a.host, b.host) ==> host_less(a, b),
        a.scheme == b.scheme && a.host == b.host && a.port < b.port ==> host_less(a, b),
        a.scheme == b.scheme && a.host == b.host && a.port == b.port && text_less(a.user, b.user)
            ==> host_less(a, b),
        a.scheme == b.scheme && a.host == b.host && a.port == b.port && a.user == b.user
            && text_less(a.password, b.password) ==> host_less(a, b),
{
    lemma_text_less_irreflexive(a.scheme);
    lemma_text_less_irreflexive(a.host);
    lemma_text_less_irreflexive(a.user);
}

/// Groups as text hold each group at its place, with all that it holds.
pub proof fn law_group_texts(entries: Seq<TargetGroup>)
    ensures
        group_texts(entries).len() == entries.len(),
        forall|i: int|
            0 <= i < entries.len() ==> {
                let (host, (url, paths)) = #[trigger] entries[i];
                let text = group_texts(entries)[i];
                &&& text.0.scheme == host.0@
                &&& text.0.host == host.1@
                &&& text.0.port == host.2
                &&& text.0.user == host.3.0@
                &&& text.0.password == host.3.1@
                &&& text.1.0 == url@
                &&& text.1.1.len() == paths@.len()
                &&& forall|k: int| 0 <= k < paths@.len() ==> text.1.1[k] == (#[trigger] paths@[k])@
            },
{
}

/// Putting a path down adds it behind the paths of its host, whose URL stays where there is one,
/// and leaves all other hosts as they are.
pub proof fn law_recorded(
    map: Map<HostKey, GroupText>,
    key: HostKey,
    url: Seq<char>,
    path: Seq<char>,
    other: HostKey,
)
    ensures
        ({
            let after = recorded(map, key, url, path);
            &&& after.contains_key(key)
            &&& map.contains_key(key) ==> after[key].0 == map[key].0 && after[key].1 =~= map[key].1
                + seq![path]
            &&& !map.contains_key(key) ==> after[key].0 == url && after[key].1 =~= seq![path]
            &&& other != key ==> (after.contains_key(other) <==> map.contains_key(other)) && (
            map.contains_key(other) ==> after[other] == map[other])
        }),
{
}

} // verus!
