//! Which container runs which pod: the agent lists the containers of every
//! node and matches their Kubernetes labels against the pods named
//! `namespace.name` in Redis.
use vstd::prelude::*;

use crate::index::TextMap;
use crate::json::{all_texts, json_index, json_items, json_text, text_member, JsonValue};
use crate::text::{split_on, split_spec, strings_view};

verus! {

/// What one node answered: its containers, and the pods known in Redis at
/// that moment.
pub struct NodeListing {
    /// The node's answer to the subcontainers query.
    pub containers: JsonValue,
    /// The document stored under the key `pods`.
    pub pods: JsonValue,
}

/// The label `label` of a container, `container["spec"]["labels"][label]`,
/// where it is a string.
pub open spec fn label_spec(container: JsonValue, label: Seq<char>) -> Option<Seq<char>> {
    json_text(json_index(json_index(json_index(container, "spec"@), "labels"@), label))
}

/// The name of the pod that a container runs, as its labels give it.
pub open spec fn pod_name_label(container: JsonValue) -> Option<Seq<char>> {
    label_spec(container, "io.kubernetes.pod.name"@)
}

/// The namespace of the pod that a container runs, as its labels give it.
pub open spec fn pod_namespace_label(container: JsonValue) -> Option<Seq<char>> {
    label_spec(container, "io.kubernetes.pod.namespace"@)
}

/// The id of a container, `container["name"]`.
pub open spec fn container_id(container: JsonValue) -> Option<Seq<char>> {
    json_text(json_index(container, "name"@))
}

/// Whether a container runs the pod written `namespace.name`.
pub open spec fn runs_pod(container: JsonValue, pod: Seq<char>) -> bool {
    let parts = split_spec(pod, '.');
    &&& pod_name_label(container) == Some(parts[1])
    &&& pod_namespace_label(container) == Some(parts[0])
}

/// A container and a pod that can be compared: where the container names a
/// pod, it names its namespace too, the pod is written with a dot, and a
/// container that runs the pod has an id.
pub open spec fn comparable(container: JsonValue, pod: Seq<char>) -> bool {
    pod_name_label(container) is Some ==> {
        &&& pod_namespace_label(container) is Some
        &&& split_spec(pod, '.').len() >= 2
        &&& runs_pod(container, pod) ==> container_id(container) is Some
    }
}

/// A listing that can be read without failing: the containers form an array
/// and, where there is any container, the pods form an array of strings,
/// each comparable with each container.
pub open spec fn listing_well_formed(l: NodeListing) -> bool {
    &&& json_items(l.containers) is Some
    &&& json_items(l.containers)->0.len() > 0 ==> {
        &&& json_items(l.pods) is Some
        &&& all_texts(json_items(l.pods)->0)
        &&& all_comparable(json_items(l.containers)->0, json_items(l.pods)->0)
    }
}

/// Every container is comparable with every pod.
pub open spec fn all_comparable(containers: Seq<JsonValue>, pods: Seq<JsonValue>) -> bool {
    forall|i: int, j: int|
        0 <= i < containers.len() && 0 <= j < pods.len() ==> comparable(
            #[trigger] containers[i],
            json_text(#[trigger] pods[j])->0,
        )
}

/// A node that did not answer, or one whose listing is well formed.
pub open spec fn listing_readable(o: Option<NodeListing>) -> bool {
    match o {
        Some(l) => listing_well_formed(l),
        None => true,
    }
}

/// The map after comparing one container with each pod in turn: a pod that
/// the container runs is mapped to the container's id.
pub open spec fn scan_pods(
    m: Map<Seq<char>, Seq<char>>,
    container: JsonValue,
    pods: Seq<JsonValue>,
) -> Map<Seq<char>, Seq<char>>
    decreases pods.len(),
{
    if pods.len() == 0 {
        m
    } else {
        let before = scan_pods(m, container, pods.drop_last());
        let pod = json_text(pods.last())->0;
        if runs_pod(container, pod) {
            before.insert(pod, container_id(container)->0)
        } else {
            before
        }
    }
}

/// The map after comparing each container in turn with the pods.
pub open spec fn scan_containers(
    m: Map<Seq<char>, Seq<char>>,
    containers: Seq<JsonValue>,
    pods: Seq<JsonValue>,
) -> Map<Seq<char>, Seq<char>>
    decreases containers.len(),
{
    if containers.len() == 0 {
        m
    } else {
        scan_pods(scan_containers(m, containers.drop_last(), pods), containers.last(), pods)
    }
}

/// The pods of a listing, or none where they form no array.
pub open spec fn listing_pods(l: NodeListing) -> Seq<JsonValue> {
    match json_items(l.pods) {
        Some(pods) => pods,
        None => Seq::empty(),
    }
}

/// The containers of a listing, or none where they form no array.
pub open spec fn listing_containers(l: NodeListing) -> Seq<JsonValue> {
    match json_items(l.containers) {
        Some(containers) => containers,
        None => Seq::empty(),
    }
}

/// The map after reading one node's listing.
pub open spec fn apply_listing(m: Map<Seq<char>, Seq<char>>, l: NodeListing) -> Map<Seq<char>, Seq<char>> {
    match json_items(l.containers) {
        Some(containers) => scan_containers(m, containers, listing_pods(l)),
        None => m,
    }
}

/// The map from pod to container id that the listings of the nodes give, read
/// in order; a node that did not answer gives nothing.
pub open spec fn container_index_spec(listings: Seq<Option<NodeListing>>) -> Map<Seq<char>, Seq<char>>
    decreases listings.len(),
{
    if listings.len() == 0 {
        Map::empty()
    } else {
        let before = container_index_spec(listings.drop_last());
        match listings.last() {
            Some(l) => apply_listing(before, l),
            None => before,
        }
    }
}

/// The label `label` of a container, where it is a string.
pub fn pod_label<'a>(container: &'a JsonValue, label: &str) -> (r: Option<&'a String>)
    ensures
        r matches Some(s) ==> label_spec(*container, label@) == Some(s@),
        r is None ==> label_spec(*container, label@) is None,
{
    match container.get("spec") {
        Some(spec) => match spec.get("labels") {
            Some(labels) => match labels.get(label) {
                Some(v) => v.as_str(),
                None => None,
            },
            None => None,
        },
        None => None,
    }
}

/// A listing with a container and a pod that cannot be compared is not well
/// formed.
proof fn lemma_incomparable_pair(l: NodeListing, cs: Seq<JsonValue>, ps: Seq<JsonValue>, i: int, j: int)
    requires
        json_items(l.containers) == Some(cs),
        json_items(l.pods) == Some(ps),
        0 <= i < cs.len(),
        0 <= j < ps.len(),
        !comparable(cs[i], json_text(ps[j])->0),
    ensures
        !listing_well_formed(l),
{
    if listing_well_formed(l) {
        assert(comparable(cs[i], json_text(ps[j])->0));
    }
}

/// Whether a node's listing can be read without failing.
pub fn listing_is_well_formed(l: &NodeListing) -> (r: bool)
    ensures
        r == listing_well_formed(*l),
{
    let containers = match l.containers.as_array() {
        Some(c) => c,
        None => return false,
    };
    if containers.len() == 0 {
        return true;
    }
    let pods = match l.pods.as_array() {
        Some(p) => p,
        None => return false,
    };
    let mut j: usize = 0;
    while j < pods.len()
        invariant
            j <= pods.len(),
            json_items(l.containers) == Some(containers@),
            json_items(l.pods) == Some(pods@),
            containers.len() > 0,
            forall|k: int| 0 <= k < j ==> (#[trigger] json_text(pods@[k])) is Some,
        decreases pods.len() - j,
    {
        if pods[j].as_str().is_none() {
            assert(json_text(pods@[j as int]) is None);
            return false;
        }
        j = j + 1;
    }
    let mut i: usize = 0;
    while i < containers.len()
        invariant
            i <= containers.len(),
            json_items(l.containers) == Some(containers@),
            json_items(l.pods) == Some(pods@),
            containers.len() > 0,
            forall|k: int| 0 <= k < pods.len() ==> (#[trigger] json_text(pods@[k])) is Some,
            forall|a: int, b: int|
                0 <= a < i && 0 <= b < pods.len() ==> comparable(
                    #[trigger] containers@[a],
                    json_text(#[trigger] pods@[b])->0,
                ),
        decreases containers.len() - i,
    {
        let c = &containers[i];
        let name = pod_label(c, "io.kubernetes.pod.name");
        let namespace = pod_label(c, "io.kubernetes.pod.namespace");
        let id = text_member(c, "name");
        let mut j: usize = 0;
        while j < pods.len()
            invariant
                j <= pods.len(),
                json_items(l.containers) == Some(containers@),
                json_items(l.pods) == Some(pods@),
                containers.len() > 0,
                i < containers.len(),
                *c == containers@[i as int],
                name matches Some(s) ==> pod_name_label(*c) == Some(s@),
                name is None ==> pod_name_label(*c) is None,
                namespace matches Some(s) ==> pod_namespace_label(*c) == Some(s@),
                namespace is None ==> pod_namespace_label(*c) is None,
                id matches Some(s) ==> container_id(*c) == Some(s@),
                id is None ==> container_id(*c) is None,
                forall|k: int| 0 <= k < pods.len() ==> (#[trigger] json_text(pods@[k])) is Some,
                forall|a: int, b: int|
                    0 <= a < i && 0 <= b < pods.len() ==> comparable(
                        #[trigger] containers@[a],
                        json_text(#[trigger] pods@[b])->0,
                    ),
                forall|b: int| 0 <= b < j ==> comparable(*c, json_text(#[trigger] pods@[b])->0),
            decreases pods.len() - j,
        {
            let pod = pods[j].as_str().unwrap();
            assert(json_text(pods@[j as int]) == Some(pod@));
            if name.is_some() {
                if namespace.is_none() {
                    proof {
                        lemma_incomparable_pair(*l, containers@, pods@, i as int, j as int);
                    }
                    return false;
                }
                let parts = split_on(pod.as_str(), '.');
                assert(strings_view(parts@).len() == parts@.len());
                if parts.len() < 2 {
                    proof {
                        lemma_incomparable_pair(*l, containers@, pods@, i as int, j as int);
                    }
                    return false;
                }
                let runs = name.unwrap().eq(&parts[1]) && namespace.unwrap().eq(&parts[0]);
                assert(strings_view(parts@)[0] == parts@[0]@ && strings_view(parts@)[1] == parts@[1]@);
                assert(runs == runs_pod(*c, pod@));
                if runs && id.is_none() {
                    proof {
                        lemma_incomparable_pair(*l, containers@, pods@, i as int, j as int);
                    }
                    return false;
                }
            }
            assert(comparable(*c, json_text(pods@[j as int])->0));
            j = j + 1;
        }
        i = i + 1;
    }
    true
}

/// Compares one container with each pod, mapping each pod that it runs to
/// its id.
fn scan_container(map: &mut TextMap, container: &JsonValue, pods: &Vec<JsonValue>)
    requires
        forall|k: int| 0 <= k < pods.len() ==> (#[trigger] json_text(pods@[k])) is Some,
        forall|b: int| 0 <= b < pods.len() ==> comparable(*container, json_text(#[trigger] pods@[b])->0),
    ensures
        final(map)@ == scan_pods(old(map)@, *container, pods@),
{
    let ghost start = map@;
    let name = pod_label(container, "io.kubernetes.pod.name");
    let mut j: usize = 0;
    assert(pods@.take(0) =~= Seq::<JsonValue>::empty());
    while j < pods.len()
        invariant
            j <= pods.len(),
            name matches Some(s) ==> pod_name_label(*container) == Some(s@),
            name is None ==> pod_name_label(*container) is None,
            forall|k: int| 0 <= k < pods.len() ==> (#[trigger] json_text(pods@[k])) is Some,
            forall|b: int| 0 <= b < pods.len() ==> comparable(*container, json_text(#[trigger] pods@[b])->0),
            map@ == scan_pods(start, *container, pods@.take(j as int)),
        decreases pods.len() - j,
    {
        assert(pods@.take(j + 1).drop_last() =~= pods@.take(j as int));
        assert(json_text(pods@[j as int]) is Some);
        assert(comparable(*container, json_text(pods@[j as int])->0));
        let pod = pods[j].as_str().unwrap();
        match name {
            Some(x) => {
                let namespace = pod_label(container, "io.kubernetes.pod.namespace").unwrap();
                let parts = split_on(pod.as_str(), '.');
                if x.eq(&parts[1]) && namespace.eq(&parts[0]) {
                    let id = text_member(container, "name").unwrap();
                    map.insert(pod.clone(), id);
                }
            },
            None => {},
        }
        j = j + 1;
    }
    assert(pods@.take(pods.len() as int) =~= pods@);
}

/// Reads one node's listing into the map.
fn scan_listing(map: &mut TextMap, l: &NodeListing)
    requires
        listing_well_formed(*l),
    ensures
        final(map)@ == apply_listing(old(map)@, *l),
{
    let ghost start = map@;
    let containers = l.containers.as_array().unwrap();
    let ghost pods_seq = listing_pods(*l);
    let mut i: usize = 0;
    assert(containers@.take(0) =~= Seq::<JsonValue>::empty());
    while i < containers.len()
        invariant
            i <= containers.len(),
            listing_well_formed(*l),
            json_items(l.containers) == Some(containers@),
            pods_seq == listing_pods(*l),
            map@ == scan_containers(start, containers@.take(i as int), pods_seq),
        decreases containers.len() - i,
    {
        assert(containers@.take(i + 1).drop_last() =~= containers@.take(i as int));
        let pods = l.pods.as_array().unwrap();
        assert(pods@ == pods_seq);
        assert forall|b: int| 0 <= b < pods.len() implies comparable(
            containers@[i as int],
            json_text(#[trigger] pods@[b])->0,
        ) by {
            assert(json_text(pods@[b]) is Some);
        }
        scan_container(map, &containers[i], pods);
        i = i + 1;
    }
    assert(containers@.take(containers.len() as int) =~= containers@);
}

/// The map from each pod, written `namespace.name`, to the id of the
/// container that runs it, from the listings of the nodes in order; a node
/// that did not answer is `None`. Where several containers run a pod, the
/// last one read wins.
pub fn get_container_id(listings: &Vec<Option<NodeListing>>) -> (index: TextMap)
    requires
        forall|k: int| 0 <= k < listings.len() ==> listing_readable(#[trigger] listings@[k]),
    ensures
        index@ == container_index_spec(listings@),
{
    let mut index = TextMap::new();
    let mut k: usize = 0;
    assert(listings@.take(0) =~= Seq::<Option<NodeListing>>::empty());
    while k < listings.len()
        invariant
            k <= listings.len(),
            forall|k: int| 0 <= k < listings.len() ==> listing_readable(#[trigger] listings@[k]),
            index@ == container_index_spec(listings@.take(k as int)),
        decreases listings.len() - k,
    {
        assert(listings@.take(k + 1).drop_last() =~= listings@.take(k as int));
        match &listings[k] {
            Some(l) => {
                assert(listing_readable(listings@[k as int]));
                scan_listing(&mut index, l);
            },
            None => {},
        }
        k = k + 1;
    }
    assert(listings@.take(listings.len() as int) =~= listings@);
    index
}

/// Some container of `containers` runs `pod` and has the id `id`.
pub open spec fn run_by_some(containers: Seq<JsonValue>, pod: Seq<char>, id: Seq<char>) -> bool {
    exists|i: int| 0 <= i < containers.len() && #[trigger] runs_pod(containers[i], pod) && container_id(containers[i]) == Some(id)
}

/// Some node answered with a container that runs `pod` and has the id `id`.
pub open spec fn reported_by_some_node(listings: Seq<Option<NodeListing>>, pod: Seq<char>, id: Seq<char>) -> bool {
    exists|k: int|
        0 <= k < listings.len() && (#[trigger] listings[k]) is Some && run_by_some(
            json_items(listings[k]->0.containers)->0,
            pod,
            id,
        )
}

/// A pod that one container's pass maps is mapped as before, or run by that
/// container and mapped to its id.
proof fn lemma_scan_pods_sound(m: Map<Seq<char>, Seq<char>>, c: JsonValue, ps: Seq<JsonValue>)
    requires
        forall|j: int| 0 <= j < ps.len() ==> comparable(c, json_text(#[trigger] ps[j])->0),
    ensures
        forall|pod: Seq<char>|
            #[trigger] scan_pods(m, c, ps).contains_key(pod) ==> {
                ||| m.contains_key(pod) && scan_pods(m, c, ps)[pod] == m[pod]
                ||| runs_pod(c, pod) && container_id(c) == Some(scan_pods(m, c, ps)[pod])
            },
    decreases ps.len(),
{
    if ps.len() > 0 {
        let front = ps.drop_last();
        assert forall|j: int| 0 <= j < front.len() implies comparable(c, json_text(#[trigger] front[j])->0) by {
            assert(front[j] == ps[j]);
        }
        lemma_scan_pods_sound(m, c, front);
        assert(comparable(c, json_text(ps[ps.len() - 1])->0));
        let mid = scan_pods(m, c, front);
        let end = scan_pods(m, c, ps);
        let pod = json_text(ps.last())->0;
        assert forall|q: Seq<char>| #[trigger] end.contains_key(q) implies {
            ||| m.contains_key(q) && end[q] == m[q]
            ||| runs_pod(c, q) && container_id(c) == Some(end[q])
        } by {
            if runs_pod(c, pod) && q == pod {
                assert(end[q] == container_id(c)->0);
            } else {
                assert(mid.contains_key(q) && end[q] == mid[q]);
            }
        }
    }
}

/// A pod that the pass over the containers maps is mapped as before, or run
/// by one of them and mapped to its id.
proof fn lemma_scan_containers_sound(m: Map<Seq<char>, Seq<char>>, cs: Seq<JsonValue>, ps: Seq<JsonValue>)
    requires
        all_comparable(cs, ps),
    ensures
        forall|pod: Seq<char>|
            #[trigger] scan_containers(m, cs, ps).contains_key(pod) ==> {
                ||| m.contains_key(pod) && scan_containers(m, cs, ps)[pod] == m[pod]
                ||| run_by_some(cs, pod, scan_containers(m, cs, ps)[pod])
            },
    decreases cs.len(),
{
    if cs.len() > 0 {
        let front = cs.drop_last();
        let c = cs.last();
        assert(all_comparable(front, ps)) by {
            assert forall|i: int, j: int| 0 <= i < front.len() && 0 <= j < ps.len() implies comparable(
                #[trigger] front[i],
                json_text(#[trigger] ps[j])->0,
            ) by {
                assert(front[i] == cs[i]);
            }
        }
        lemma_scan_containers_sound(m, front, ps);
        let mid = scan_containers(m, front, ps);
        assert forall|j: int| 0 <= j < ps.len() implies comparable(c, json_text(#[trigger] ps[j])->0) by {
            assert(cs[cs.len() - 1] == c);
        }
        lemma_scan_pods_sound(mid, c, ps);
        let end = scan_containers(m, cs, ps);
        assert forall|pod: Seq<char>| #[trigger] end.contains_key(pod) implies {
            ||| m.contains_key(pod) && end[pod] == m[pod]
            ||| run_by_some(cs, pod, end[pod])
        } by {
            if mid.contains_key(pod) && end[pod] == mid[pod] {
                if !(m.contains_key(pod) && mid[pod] == m[pod]) {
                    let i = choose|i: int| 0 <= i < front.len() && #[trigger] runs_pod(front[i], pod) && container_id(front[i]) == Some(mid[pod]);
                    assert(cs[i] == front[i]);
                    assert(runs_pod(cs[i], pod));
                }
            } else {
                assert(cs[cs.len() - 1] == c);
                assert(runs_pod(cs[cs.len() - 1], pod));
            }
        }
    }
}

/// Every pod that the container map holds is run, as its labels say, by a
/// container with the id that it is mapped to, in the listing of some node.
pub proof fn lemma_container_index_sound(listings: Seq<Option<NodeListing>>)
    requires
        forall|k: int| 0 <= k < listings.len() ==> listing_readable(#[trigger] listings[k]),
    ensures
        forall|pod: Seq<char>|
            #[trigger] container_index_spec(listings).contains_key(pod) ==> reported_by_some_node(
                listings,
                pod,
                container_index_spec(listings)[pod],
            ),
    decreases listings.len(),
{
    if listings.len() > 0 {
        let front = listings.drop_last();
        assert forall|k: int| 0 <= k < front.len() implies listing_readable(#[trigger] front[k]) by {
            assert(front[k] == listings[k]);
        }
        lemma_container_index_sound(front);
        let mid = container_index_spec(front);
        let end = container_index_spec(listings);
        let last = listings.len() - 1;
        assert(listing_readable(listings[last]));
        match listings.last() {
            Some(l) => {
                let cs = json_items(l.containers)->0;
                let ps = listing_pods(l);
                if cs.len() > 0 {
                    lemma_scan_containers_sound(mid, cs, ps);
                } else {
                    assert(scan_containers(mid, cs, ps) == mid);
                }
                assert forall|pod: Seq<char>| #[trigger] end.contains_key(pod) implies reported_by_some_node(
                    listings,
                    pod,
                    end[pod],
                ) by {
                    if mid.contains_key(pod) && end[pod] == mid[pod] {
                        let k = choose|k: int|
                            0 <= k < front.len() && (#[trigger] front[k]) is Some && run_by_some(
                                json_items(front[k]->0.containers)->0,
                                pod,
                                mid[pod],
                            );
                        assert(listings[k] == front[k]);
                    } else {
                        assert(listings[last] == Some(l));
                    }
                }
            },
            None => {
                assert forall|pod: Seq<char>| #[trigger] end.contains_key(pod) implies reported_by_some_node(
                    listings,
                    pod,
                    end[pod],
                ) by {
                    let k = choose|k: int|
                        0 <= k < front.len() && (#[trigger] front[k]) is Some && run_by_some(
                            json_items(front[k]->0.containers)->0,
                            pod,
                            mid[pod],
                        );
                    assert(listings[k] == front[k]);
                }
            },
        }
    }
}

/// One container's pass keeps every pod and maps every pod that it runs.
proof fn lemma_scan_pods_complete(m: Map<Seq<char>, Seq<char>>, c: JsonValue, ps: Seq<JsonValue>)
    ensures
        forall|pod: Seq<char>| m.contains_key(pod) ==> #[trigger] scan_pods(m, c, ps).contains_key(pod),
        forall|j: int|
            0 <= j < ps.len() && runs_pod(c, json_text(#[trigger] ps[j])->0) ==> scan_pods(m, c, ps).contains_key(
                json_text(ps[j])->0,
            ),
    decreases ps.len(),
{
    if ps.len() > 0 {
        let front = ps.drop_last();
        lemma_scan_pods_complete(m, c, front);
        assert forall|pod: Seq<char>| m.contains_key(pod) implies #[trigger] scan_pods(m, c, ps).contains_key(pod) by {
            assert(scan_pods(m, c, front).contains_key(pod));
        }
        assert forall|j: int|
            0 <= j < ps.len() && runs_pod(c, json_text(#[trigger] ps[j])->0) implies scan_pods(m, c, ps).contains_key(
            json_text(ps[j])->0,
        ) by {
            if j < ps.len() - 1 {
                assert(ps[j] == front[j]);
            }
        }
    }
}

/// The pass over the containers keeps every pod and maps every pod that one
/// of them runs.
proof fn lemma_scan_containers_complete(m: Map<Seq<char>, Seq<char>>, cs: Seq<JsonValue>, ps: Seq<JsonValue>)
    ensures
        forall|pod: Seq<char>| m.contains_key(pod) ==> #[trigger] scan_containers(m, cs, ps).contains_key(pod),
        forall|i: int, j: int|
            0 <= i < cs.len() && 0 <= j < ps.len() && runs_pod(#[trigger] cs[i], json_text(#[trigger] ps[j])->0)
                ==> scan_containers(m, cs, ps).contains_key(json_text(ps[j])->0),
    decreases cs.len(),
{
    if cs.len() > 0 {
        let front = cs.drop_last();
        lemma_scan_containers_complete(m, front, ps);
        let mid = scan_containers(m, front, ps);
        lemma_scan_pods_complete(mid, cs.last(), ps);
        assert forall|i: int, j: int|
            0 <= i < cs.len() && 0 <= j < ps.len() && runs_pod(#[trigger] cs[i], json_text(#[trigger] ps[j])->0)
                implies scan_containers(m, cs, ps).contains_key(json_text(ps[j])->0) by {
            if i < cs.len() - 1 {
                assert(cs[i] == front[i]);
                assert(mid.contains_key(json_text(ps[j])->0));
            }
        }
    }
}

/// Every pod of a node's listing that a container of that listing runs,
/// as its labels say, is in the container map.
pub proof fn lemma_container_index_complete(listings: Seq<Option<NodeListing>>)
    ensures
        forall|k: int, i: int, j: int|
            0 <= k < listings.len() && (#[trigger] listings[k]) is Some
                && 0 <= i < listing_containers(listings[k]->0).len()
                && 0 <= j < listing_pods(listings[k]->0).len()
                && runs_pod(
                #[trigger] listing_containers(listings[k]->0)[i],
                json_text(#[trigger] listing_pods(listings[k]->0)[j])->0,
            ) ==> container_index_spec(listings).contains_key(
                json_text(listing_pods(listings[k]->0)[j])->0,
            ),
    decreases listings.len(),
{
    if listings.len() > 0 {
        let front = listings.drop_last();
        lemma_container_index_complete(front);
        let mid = container_index_spec(front);
        let end = container_index_spec(listings);
        let last = listings.len() - 1;
        match listings.last() {
            Some(l) => {
                match json_items(l.containers) {
                    Some(cs) => lemma_scan_containers_complete(mid, cs, listing_pods(l)),
                    None => {},
                }
            },
            None => {},
        }
        assert forall|k: int, i: int, j: int|
            0 <= k < listings.len() && (#[trigger] listings[k]) is Some
                && 0 <= i < listing_containers(listings[k]->0).len()
                && 0 <= j < listing_pods(listings[k]->0).len()
                && runs_pod(
                #[trigger] listing_containers(listings[k]->0)[i],
                json_text(#[trigger] listing_pods(listings[k]->0)[j])->0,
            ) implies end.contains_key(
            json_text(listing_pods(listings[k]->0)[j])->0,
        ) by {
            let pod = json_text(listing_pods(listings[k]->0)[j])->0;
            if k < last {
                assert(listings[k] == front[k]);
                assert(mid.contains_key(pod));
            }
        }
    }
}

} // verus!
