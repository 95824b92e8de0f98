//! Cuckoo-cycle proof of work: a keyed SipHash graph and the check that a
//! proof is a single cycle of the configured length in that graph.
use vstd::prelude::*;
use crate::digest::{blake2b_256, digest_of, le_value, read_u64_le};

verus! {

/// Rotation of a 64-bit word to the left by `n` bits, `0 < n < 64`.
pub open spec fn rotl_spec(x: u64, n: u64) -> u64 {
    (x << n) | (x >> ((64 - n) as u64))
}

pub open spec fn wadd(x: u64, y: u64) -> u64 {
    vstd::wrapping::u64_specs::wrapping_add(x, y)
}

/// One SipHash round over the four state words.
pub open spec fn sip_round(v: (u64, u64, u64, u64)) -> (u64, u64, u64, u64) {
    let v0 = wadd(v.0, v.1);
    let v2 = wadd(v.2, v.3);
    let v1 = rotl_spec(v.1, 13) ^ v0;
    let v3 = rotl_spec(v.3, 16) ^ v2;
    let v0 = rotl_spec(v0, 32);
    let v2 = wadd(v2, v1);
    let v0 = wadd(v0, v3);
    let v1 = rotl_spec(v1, 17) ^ v2;
    let v3 = rotl_spec(v3, 21) ^ v0;
    let v2 = rotl_spec(v2, 32);
    (v0, v1, v2, v3)
}

/// The keyed hash of `val`: two rounds, the value and the `0xff` domain
/// separator folded in, then four finalisation rounds.
pub open spec fn sip_hash(keys: Seq<u64>, val: u64) -> u64 {
    let s = sip_round(sip_round((keys[0], keys[1], keys[2], keys[3] ^ val)));
    let s = (s.0 ^ val, s.1, s.2 ^ 0xffu64, s.3);
    let s = sip_round(sip_round(sip_round(sip_round(s))));
    s.0 ^ s.1 ^ s.2 ^ s.3
}

/// The edge of candidate index `val`: its upper and lower node.
pub open spec fn sip_edge(keys: Seq<u64>, val: u32, mask: u64) -> (u64, u64) {
    (sip_hash(keys, (2 * val) as u64) & mask, sip_hash(keys, (2 * val + 1) as u64) & mask)
}

/// The four SipHash keys that an input selects: the digest read as four
/// little-endian words.
pub open spec fn keys_of(input: Seq<u8>) -> Seq<u64> {
    let d = digest_of(input);
    seq![
        le_value(d.subrange(0, 8)) as u64,
        le_value(d.subrange(8, 16)) as u64,
        le_value(d.subrange(16, 24)) as u64,
        le_value(d.subrange(24, 32)) as u64,
    ]
}

fn rotl(x: u64, n: u64) -> (r: u64)
    requires
        0 < n < 64,
    ensures
        r == rotl_spec(x, n),
{
    (x << n) | (x >> (64 - n))
}

/// The SipHash permutation keyed by four words.
pub struct CuckooSip {
    keys: [u64; 4],
}

impl View for CuckooSip {
    type V = Seq<u64>;

    closed spec fn view(&self) -> Seq<u64> {
        self.keys@
    }
}

impl CuckooSip {
    pub fn new(key0: u64, key1: u64, key2: u64, key3: u64) -> (r: Self)
        ensures
            r@ == seq![key0, key1, key2, key3],
    {
        let r = Self { keys: [key0, key1, key2, key3] };
        assert(r@ =~= seq![key0, key1, key2, key3]);
        r
    }

    pub fn sipround(v0: &mut u64, v1: &mut u64, v2: &mut u64, v3: &mut u64)
        ensures
            (*final(v0), *final(v1), *final(v2), *final(v3)) == sip_round(
                (*old(v0), *old(v1), *old(v2), *old(v3)),
            ),
    {
        *v0 = v0.wrapping_add(*v1);
        *v2 = v2.wrapping_add(*v3);
        *v1 = rotl(*v1, 13);

        *v3 = rotl(*v3, 16);
        *v1 = *v1 ^ *v0;
        *v3 = *v3 ^ *v2;

        *v0 = rotl(*v0, 32);
        *v2 = v2.wrapping_add(*v1);
        *v0 = v0.wrapping_add(*v3);

        *v1 = rotl(*v1, 17);
        *v3 = rotl(*v3, 21);

        *v1 = *v1 ^ *v2;
        *v3 = *v3 ^ *v0;
        *v2 = rotl(*v2, 32);
    }

    pub fn hash(&self, val: u64) -> (r: u64)
        ensures
            r == sip_hash(self@, val),
    {
        let mut v0 = self.keys[0];
        let mut v1 = self.keys[1];
        let mut v2 = self.keys[2];
        let mut v3 = self.keys[3] ^ val;
        CuckooSip::sipround(&mut v0, &mut v1, &mut v2, &mut v3);
        CuckooSip::sipround(&mut v0, &mut v1, &mut v2, &mut v3);
        v0 = v0 ^ val;
        v2 = v2 ^ 0xff;
        CuckooSip::sipround(&mut v0, &mut v1, &mut v2, &mut v3);
        CuckooSip::sipround(&mut v0, &mut v1, &mut v2, &mut v3);
        CuckooSip::sipround(&mut v0, &mut v1, &mut v2, &mut v3);
        CuckooSip::sipround(&mut v0, &mut v1, &mut v2, &mut v3);

        v0 ^ v1 ^ v2 ^ v3
    }

    pub fn edge(&self, val: u32, edge_mask: u64) -> (r: (u64, u64))
        ensures
            r == sip_edge(self@, val, edge_mask),
    {
        let v = val as u64;
        let upper = self.hash(v * 2) & edge_mask;
        let lower = self.hash(v * 2 + 1) & edge_mask;
        (upper, lower)
    }

    pub fn input_to_keys(input: &[u8]) -> (r: [u64; 4])
        ensures
            r@ == keys_of(input@),
    {
        let result = blake2b_256(input);
        let k0 = read_u64_le(&result, 0);
        let k1 = read_u64_le(&result, 8);
        let k2 = read_u64_le(&result, 16);
        let k3 = read_u64_le(&result, 24);
        let r = [k0, k1, k2, k3];
        assert(r@ =~= keys_of(input@));
        r
    }
}


/// Strictly increasing sequence of proof elements.
pub open spec fn strictly_increasing(s: Seq<u32>) -> bool {
    forall|i: int, j: int| 0 <= i < j < s.len() ==> s[i] < s[j]
}

/// The edges that a proof names, in proof order.
pub open spec fn edges_of(keys: Seq<u64>, proof: Seq<u32>, mask: u64) -> Seq<(u64, u64)> {
    proof.map_values(|p: u32| sip_edge(keys, p, mask))
}

/// How many edges have upper node `u`.
pub open spec fn upper_degree(edges: Seq<(u64, u64)>, u: u64) -> nat
    decreases edges.len(),
{
    if edges.len() == 0 {
        0
    } else {
        upper_degree(edges.drop_last(), u) + if edges.last().0 == u { 1nat } else { 0nat }
    }
}

/// How many edges have lower node `l`.
pub open spec fn lower_degree(edges: Seq<(u64, u64)>, l: u64) -> nat
    decreases edges.len(),
{
    if edges.len() == 0 {
        0
    } else {
        lower_degree(edges.drop_last(), l) + if edges.last().1 == l { 1nat } else { 0nat }
    }
}

/// Every node that an edge touches has exactly two edges.
pub open spec fn all_degree_two(edges: Seq<(u64, u64)>) -> bool {
    forall|i: int|
        0 <= i < edges.len() ==> upper_degree(edges, (#[trigger] edges[i]).0) == 2
            && lower_degree(edges, edges[i].1) == 2
}

/// The lower node of the first edge at upper node `u` whose lower node is
/// not `from`.
pub open spec fn next_lower(edges: Seq<(u64, u64)>, u: u64, from: u64) -> Option<u64>
    decreases edges.len(),
{
    if edges.len() == 0 {
        None
    } else if edges[0].0 == u && edges[0].1 != from {
        Some(edges[0].1)
    } else {
        next_lower(edges.drop_first(), u, from)
    }
}

/// The upper node of the first edge at lower node `l` whose upper node is
/// not `from`.
pub open spec fn next_upper(edges: Seq<(u64, u64)>, l: u64, from: u64) -> Option<u64>
    decreases edges.len(),
{
    if edges.len() == 0 {
        None
    } else if edges[0].1 == l && edges[0].0 != from {
        Some(edges[0].0)
    } else {
        next_upper(edges.drop_first(), l, from)
    }
}

/// Walks the graph from edge `cur`, two edges a step, always leaving a node
/// by the edge it did not arrive on, with `counted` edges behind it. The
/// result is the number of edges when the walk is back at upper node `start`;
/// `None` where a node has no other edge or `fuel` steps do not close it.
pub open spec fn walk(
    edges: Seq<(u64, u64)>,
    start: u64,
    cur: (u64, u64),
    counted: nat,
    fuel: nat,
) -> Option<nat>
    decreases fuel,
{
    if fuel == 0 {
        None
    } else {
        match next_lower(edges, cur.0, cur.1) {
            None => None,
            Some(nl) => match next_upper(edges, nl, cur.0) {
                None => None,
                Some(nu) => if nu == start {
                    Some(counted + 2)
                } else {
                    walk(edges, start, (nu, nl), counted + 2, (fuel - 1) as nat)
                },
            },
        }
    }
}

/// The length of the cycle through the first edge.
pub open spec fn cycle_len(edges: Seq<(u64, u64)>) -> Option<nat> {
    walk(edges, edges[0].0, edges[0], 0, edges.len())
}

proof fn lemma_walk_grows(
    edges: Seq<(u64, u64)>,
    start: u64,
    cur: (u64, u64),
    counted: nat,
    fuel: nat,
)
    ensures
        walk(edges, start, cur, counted, fuel) matches Some(k) ==> k >= counted + 2,
    decreases fuel,
{
    if fuel > 0 {
        match next_lower(edges, cur.0, cur.1) {
            None => {},
            Some(nl) => match next_upper(edges, nl, cur.0) {
                None => {},
                Some(nu) => {
                    if nu != start {
                        lemma_walk_grows(edges, start, (nu, nl), counted + 2, (fuel - 1) as nat);
                    }
                },
            },
        }
    }
}

/// Parameters of the proof of work.
#[derive(Clone)]
pub struct Cuckoo {
    pub max_edge: u64,
    pub edge_mask: u64,
    pub cycle_length: usize,
}

impl Cuckoo {
    /// A proof is accepted when it has `cycle_length` elements, the last one
    /// within the mask, all strictly increasing, every node of its edges has
    /// degree two, and the walk from the first edge closes after exactly
    /// `cycle_length` edges.
    pub open spec fn verify_spec(&self, input: Seq<u8>, proof: Seq<u32>) -> bool {
        self.verify_with_keys_spec(keys_of(input), proof)
    }

    /// The same check for the SipHash keys `keys`, whatever input chose them.
    pub open spec fn verify_with_keys_spec(&self, keys: Seq<u64>, proof: Seq<u32>) -> bool {
        let edges = edges_of(keys, proof, self.edge_mask);
        &&& proof.len() == self.cycle_length
        &&& proof.len() > 0
        &&& proof.last() as u64 <= self.edge_mask
        &&& strictly_increasing(proof)
        &&& all_degree_two(edges)
        &&& cycle_len(edges) == Some(self.cycle_length as nat)
    }

    pub fn new(edge_bits: u8, cycle_length: usize) -> (r: Self)
        requires
            cycle_length > 0,
            edge_bits < 64,
        ensures
            r.max_edge == 1u64 << edge_bits,
            r.edge_mask == r.max_edge - 1,
            r.cycle_length == cycle_length,
    {
        let max_edge: u64 = 1u64 << edge_bits;
        assert(1u64 << edge_bits >= 1) by (bit_vector)
            requires
                edge_bits < 64,
        ;
        Self { max_edge, edge_mask: max_edge - 1, cycle_length }
    }

    pub fn verify(&self, input: &[u8], proof: &[u32]) -> (r: bool)
        ensures
            r == self.verify_spec(input@, proof@),
    {
        let keys = CuckooSip::input_to_keys(input);
        self.verify_with_keys(&keys, proof)
    }

    /// Checks a proof against the graph that the keys `keys` span.
    pub fn verify_with_keys(&self, keys: &[u64; 4], proof: &[u32]) -> (r: bool)
        ensures
            r == self.verify_with_keys_spec(keys@, proof@),
    {
        let n = proof.len();
        if n != self.cycle_length || n == 0 {
            return false;
        }
        if proof[n - 1] as u64 > self.edge_mask {
            return false;
        }
        if !is_monotonous(proof) {
            return false;
        }
        let hasher = CuckooSip::new(keys[0], keys[1], keys[2], keys[3]);
        proof {
            assert(hasher@ =~= keys@);
        }
        let edges = proof_edges(&hasher, proof, self.edge_mask);
        if !degrees_are_two(&edges) {
            return false;
        }
        match cycle_length_of(&edges) {
            Some(len) => len == self.cycle_length,
            None => false,
        }
    }
}

/// An accepted proof has exactly `cycle_length` elements, strictly
/// increasing and each within the mask; every node of its edges has degree
/// two, and the walk from its first edge closes after exactly `cycle_length`
/// edges. A proof of another length, or one out of order, is refused.
pub proof fn lemma_verify_sound(c: Cuckoo, input: Seq<u8>, proof: Seq<u32>)
    ensures
        c.verify_spec(input, proof) ==> {
            let edges = edges_of(keys_of(input), proof, c.edge_mask);
            &&& proof.len() == c.cycle_length
            &&& strictly_increasing(proof)
            &&& forall|i: int| 0 <= i < proof.len() ==> #[trigger] proof[i] as u64 <= c.edge_mask
            &&& all_degree_two(edges)
            &&& cycle_len(edges) == Some(c.cycle_length as nat)
        },
        proof.len() != c.cycle_length ==> !c.verify_spec(input, proof),
        !strictly_increasing(proof) ==> !c.verify_spec(input, proof),
{
    if c.verify_spec(input, proof) {
        assert forall|i: int| 0 <= i < proof.len() implies #[trigger] proof[i] as u64 <= c.edge_mask by {
            if i < proof.len() - 1 {
                assert(proof[i] < proof[proof.len() - 1]);
            }
        }
    }
}

/// Swapping two elements of a proof in order, or copying one of its
/// elements over another, makes it refused.
pub proof fn lemma_mutation_refused(c: Cuckoo, input: Seq<u8>, proof: Seq<u32>, i: int, j: int)
    requires
        0 <= i < j < proof.len(),
        strictly_increasing(proof),
    ensures
        !c.verify_spec(input, proof.update(i, proof[j]).update(j, proof[i])),
        !c.verify_spec(input, proof.update(i, proof[j])),
        !c.verify_spec(input, proof.update(j, proof[i])),
{
    let swapped = proof.update(i, proof[j]).update(j, proof[i]);
    assert(swapped[i] == proof[j] && swapped[j] == proof[i]);
    assert(proof[i] < proof[j]);
    assert(proof.update(i, proof[j])[i] == proof.update(i, proof[j])[j]);
    assert(proof.update(j, proof[i])[i] == proof.update(j, proof[i])[j]);
}

fn is_monotonous(proof: &[u32]) -> (r: bool)
    ensures
        r == strictly_increasing(proof@),
{
    let mut i: usize = 1;
    while i < proof.len()
        invariant
            1 <= i,
            i <= proof.len() || proof.len() == 0,
            forall|a: int, b: int| 0 <= a < b < i && b < proof@.len() ==> proof@[a] < proof@[b],
        decreases proof.len() - i,
    {
        if proof[i - 1] >= proof[i] {
            return false;
        }
        i = i + 1;
    }
    true
}

fn proof_edges(hasher: &CuckooSip, proof: &[u32], mask: u64) -> (r: Vec<(u64, u64)>)
    ensures
        r@ == edges_of(hasher@, proof@, mask),
{
    let mut edges: Vec<(u64, u64)> = Vec::new();
    let mut i: usize = 0;
    while i < proof.len()
        invariant
            i <= proof.len(),
            edges@ == edges_of(hasher@, proof@.take(i as int), mask),
        decreases proof.len() - i,
    {
        let e = hasher.edge(proof[i], mask);
        edges.push(e);
        i = i + 1;
        assert(edges@ =~= edges_of(hasher@, proof@.take(i as int), mask));
    }
    assert(proof@.take(i as int) =~= proof@);
    edges
}

fn count_upper(edges: &Vec<(u64, u64)>, u: u64) -> (r: usize)
    ensures
        r == upper_degree(edges@, u),
{
    let mut c: usize = 0;
    let mut j: usize = 0;
    while j < edges.len()
        invariant
            j <= edges.len(),
            c == upper_degree(edges@.take(j as int), u),
            c <= j,
        decreases edges.len() - j,
    {
        assert(edges@.take(j + 1).drop_last() =~= edges@.take(j as int));
        if edges[j].0 == u {
            c = c + 1;
        }
        j = j + 1;
    }
    assert(edges@.take(j as int) =~= edges@);
    c
}

fn count_lower(edges: &Vec<(u64, u64)>, l: u64) -> (r: usize)
    ensures
        r == lower_degree(edges@, l),
{
    let mut c: usize = 0;
    let mut j: usize = 0;
    while j < edges.len()
        invariant
            j <= edges.len(),
            c == lower_degree(edges@.take(j as int), l),
            c <= j,
        decreases edges.len() - j,
    {
        assert(edges@.take(j + 1).drop_last() =~= edges@.take(j as int));
        if edges[j].1 == l {
            c = c + 1;
        }
        j = j + 1;
    }
    assert(edges@.take(j as int) =~= edges@);
    c
}

fn degrees_are_two(edges: &Vec<(u64, u64)>) -> (r: bool)
    ensures
        r == all_degree_two(edges@),
{
    let mut i: usize = 0;
    while i < edges.len()
        invariant
            i <= edges.len(),
            forall|k: int|
                0 <= k < i ==> upper_degree(edges@, (#[trigger] edges@[k]).0) == 2
                    && lower_degree(edges@, edges@[k].1) == 2,
        decreases edges.len() - i,
    {
        let up = count_upper(edges, edges[i].0);
        let low = count_lower(edges, edges[i].1);
        if up != 2 || low != 2 {
            return false;
        }
        assert(upper_degree(edges@, edges@[i as int].0) == 2);
        assert(lower_degree(edges@, edges@[i as int].1) == 2);
        i = i + 1;
    }
    true
}

fn find_next_lower(edges: &Vec<(u64, u64)>, u: u64, from: u64) -> (r: Option<u64>)
    ensures
        r == next_lower(edges@, u, from),
{
    let mut j: usize = 0;
    assert(edges@.subrange(0, edges@.len() as int) =~= edges@);
    while j < edges.len()
        invariant
            j <= edges.len(),
            next_lower(edges@, u, from) == next_lower(edges@.subrange(j as int, edges@.len() as int), u, from),
        decreases edges.len() - j,
    {
        let ghost rest = edges@.subrange(j as int, edges@.len() as int);
        assert(rest.drop_first() =~= edges@.subrange(j + 1, edges@.len() as int));
        if edges[j].0 == u && edges[j].1 != from {
            return Some(edges[j].1);
        }
        j = j + 1;
    }
    None
}

fn find_next_upper(edges: &Vec<(u64, u64)>, l: u64, from: u64) -> (r: Option<u64>)
    ensures
        r == next_upper(edges@, l, from),
{
    let mut j: usize = 0;
    assert(edges@.subrange(0, edges@.len() as int) =~= edges@);
    while j < edges.len()
        invariant
            j <= edges.len(),
            next_upper(edges@, l, from) == next_upper(edges@.subrange(j as int, edges@.len() as int), l, from),
        decreases edges.len() - j,
    {
        let ghost rest = edges@.subrange(j as int, edges@.len() as int);
        assert(rest.drop_first() =~= edges@.subrange(j + 1, edges@.len() as int));
        if edges[j].1 == l && edges[j].0 != from {
            return Some(edges[j].0);
        }
        j = j + 1;
    }
    None
}

/// Walks the cycle through the first edge and counts its edges.
fn cycle_length_of(edges: &Vec<(u64, u64)>) -> (r: Option<usize>)
    requires
        edges@.len() > 0,
    ensures
        r matches Some(k) ==> cycle_len(edges@) == Some(k as nat),
        r is None ==> !(cycle_len(edges@) matches Some(k) && k <= usize::MAX),
{
    let n = edges.len();
    let mut cur = edges[0];
    let start = cur.0;
    let mut counted: usize = 0;
    let mut fuel: usize = n;
    while fuel > 0
        invariant
            walk(edges@, start, cur, counted as nat, fuel as nat) == cycle_len(edges@),
            start == edges@[0].0,
        decreases fuel,
    {
        proof {
            lemma_walk_grows(edges@, start, cur, counted as nat, fuel as nat);
        }
        let nl = match find_next_lower(edges, cur.0, cur.1) {
            Some(v) => v,
            None => return None,
        };
        let nu = match find_next_upper(edges, nl, cur.0) {
            Some(v) => v,
            None => return None,
        };
        if counted > usize::MAX - 2 {
            return None;
        }
        if nu == start {
            return Some(counted + 2);
        }
        cur = (nu, nl);
        counted = counted + 2;
        fuel = fuel - 1;
    }
    None
}

} // verus!
