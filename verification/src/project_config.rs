//! Project-level version pins (`.sdkm.toml`): SDK name → version, kept
//! sorted by name. Finding, reading and writing the file happen at the edge
//! of the program.

use vstd::prelude::*;
use crate::config::{name_codes, pair_texts};
use crate::order::{is_stable_order, key_views, stable_sort_by_keys};
use crate::text::chars_of;
use crate::version::fuzzy::{lemma_lex_order_antisym, lemma_lex_order_trans, lex_order, lex_order_exec};

verus! {

/// The pins of a project: (SDK name, version), sorted by name, no name twice.
#[derive(Debug, Clone)]
pub struct ProjectConfig {
    pub pins: Vec<(String, String)>,
}

impl Default for ProjectConfig {
    fn default() -> (r: Self)
        ensures
            r.pins@.len() == 0,
    {
        ProjectConfig { pins: Vec::new() }
    }
}

/// Names strictly increase (by character codes, the order of `String`).
pub open spec fn strictly_sorted(ps: Seq<(Seq<char>, Seq<char>)>) -> bool {
    forall|i: int, j: int| 0 <= i < j < ps.len() ==> lex_order(name_codes(#[trigger] ps[i].0), name_codes(#[trigger] ps[j].0)) < 0
}

/// No name occurs twice.
pub open spec fn distinct_names(ps: Seq<(Seq<char>, Seq<char>)>) -> bool {
    forall|i: int, j: int| 0 <= i < j < ps.len() ==> #[trigger] ps[i].0 != #[trigger] ps[j].0
}

/// The sort keys of (name, value) pairs: the names' character codes.
pub open spec fn pair_keys(ps: Seq<(Seq<char>, Seq<char>)>) -> Seq<Seq<u32>> {
    ps.map_values(|e: (Seq<char>, Seq<char>)| name_codes(e.0))
}

/// The pins are well formed: sorted by name.
pub open spec fn pins_wf(c: ProjectConfig) -> bool {
    strictly_sorted(pair_texts(c.pins@))
}

/// Equal character codes mean equal names.
pub proof fn lemma_name_codes_injective(a: Seq<char>, b: Seq<char>)
    requires
        name_codes(a) == name_codes(b),
    ensures
        a == b,
{
    assert(a.len() == name_codes(a).len());
    assert forall|i: int| 0 <= i < a.len() implies a[i] == b[i] by {
        let u = a[i] as u32;
        let w = b[i] as u32;
        assert(name_codes(a)[i] == u);
        assert(name_codes(b)[i] == w);
        vstd::utf8::char_u32_cast(a[i], u);
        vstd::utf8::char_u32_cast(b[i], w);
    }
    assert(a =~= b);
}

fn codes_of(s: &str) -> (r: Vec<u32>)
    ensures
        r@ == name_codes(s@),
{
    let v = chars_of(s);
    let mut r: Vec<u32> = Vec::new();
    let mut i: usize = 0;
    while i < v.len()
        invariant
            i <= v@.len(),
            v@ == s@,
            r@ == name_codes(s@).take(i as int),
        decreases v.len() - i,
    {
        r.push(v[i] as u32);
        i = i + 1;
        assert(r@ =~= name_codes(s@).take(i as int));
    }
    assert(name_codes(s@).take(v@.len() as int) =~= name_codes(s@));
    r
}

/// The pins of a map (distinct names), sorted by name.
pub fn pins_from_map(map: Vec<(String, String)>) -> (c: ProjectConfig)
    requires
        distinct_names(pair_texts(map@)),
    ensures
        pins_wf(c),
        exists|p: Seq<int>| #[trigger] is_stable_order(pair_keys(pair_texts(map@)), p, false)
            && pair_texts(c.pins@) == p.map_values(|i: int| pair_texts(map@)[i]),
{
    let ghost items = map@;
    let ghost ps = pair_texts(map@);
    let ghost ks = pair_keys(ps);
    let mut keys: Vec<Vec<u32>> = Vec::new();
    let mut i: usize = 0;
    while i < map.len()
        invariant
            i <= map@.len(),
            items == map@,
            keys@.len() == i,
            forall|j: int| 0 <= j < i ==> (#[trigger] keys@[j])@ == name_codes(map@[j].0@),
        decreases map.len() - i,
    {
        keys.push(codes_of(map[i].0.as_str()));
        i = i + 1;
    }
    assert(key_views(keys@) =~= ks);
    let sorted = stable_sort_by_keys(map, keys, false);
    let ghost p = choose|p: Seq<int>| #[trigger] is_stable_order(ks, p, false) && forall|t: int| 0 <= t < sorted@.len() ==> sorted@[t] == items[#[trigger] p[t]];
    assert(is_stable_order(ks, p, false));
    assert(pair_texts(sorted@) =~= p.map_values(|t: int| ps[t]));
    let c = ProjectConfig { pins: sorted };
    assert forall|a: int, b: int| 0 <= a < b < pair_texts(c.pins@).len() implies lex_order(name_codes(#[trigger] pair_texts(c.pins@)[a].0), name_codes(#[trigger] pair_texts(c.pins@)[b].0)) < 0 by {
        assert(pair_texts(c.pins@)[a] == ps[p[a]]);
        assert(pair_texts(c.pins@)[b] == ps[p[b]]);
        assert(ks[p[a]] == name_codes(ps[p[a]].0));
        assert(ks[p[b]] == name_codes(ps[p[b]].0));
        assert(p[a] != p[b]);
        if lex_order(ks[p[a]], ks[p[b]]) == 0 {
            lemma_lex_order_antisym(ks[p[a]], ks[p[b]]);
            lemma_name_codes_injective(ps[p[a]].0, ps[p[b]].0);
        }
    }
    c
}

/// Position `j` is where `name` belongs: every earlier name sorts before it,
/// no later one does.
pub open spec fn pin_slot(ps: Seq<(Seq<char>, Seq<char>)>, name: Seq<char>, j: int) -> bool {
    &&& 0 <= j <= ps.len()
    &&& forall|t: int| 0 <= t < j ==> lex_order(name_codes(#[trigger] ps[t].0), name_codes(name)) < 0
    &&& forall|t: int| j <= t < ps.len() ==> lex_order(name_codes(#[trigger] ps[t].0), name_codes(name)) >= 0
}

/// The pins with `name` set to `v` at its position `j`: replaced when the
/// name is there, inserted otherwise.
pub open spec fn with_pin(ps: Seq<(Seq<char>, Seq<char>)>, j: int, name: Seq<char>, v: Seq<char>) -> Seq<(Seq<char>, Seq<char>)> {
    if j < ps.len() && ps[j].0 == name {
        ps.update(j, (name, v))
    } else {
        ps.insert(j, (name, v))
    }
}

impl ProjectConfig {
    fn pin_before(&self, j: usize, key: &Vec<u32>) -> (r: bool)
        requires
            j < self.pins@.len(),
        ensures
            r == (lex_order(name_codes(pair_texts(self.pins@)[j as int].0), key@) < 0),
    {
        let kj = codes_of(self.pins[j].0.as_str());
        lex_order_exec(&kj, key) < 0
    }

    /// Pins `name` to `version` (replacing its previous pin), keeping the order.
    pub fn insert_pin(&mut self, name: String, version: String)
        requires
            pins_wf(*old(self)),
        ensures
            pins_wf(*final(self)),
            exists|j: int| #[trigger] pin_slot(pair_texts(old(self).pins@), name@, j)
                && pair_texts(final(self).pins@) == with_pin(pair_texts(old(self).pins@), j, name@, version@),
    {
        let ghost ps = pair_texts(self.pins@);
        let key = codes_of(name.as_str());
        let mut j: usize = 0;
        while j < self.pins.len() && self.pin_before(j, &key)
            invariant
                ps == pair_texts(self.pins@),
                key@ == name_codes(name@),
                j <= self.pins@.len(),
                forall|t: int| 0 <= t < j ==> lex_order(name_codes(#[trigger] ps[t].0), name_codes(name@)) < 0,
            decreases self.pins.len() - j,
        {
            j = j + 1;
        }
        proof {
            assert forall|t: int| j <= t < ps.len() implies lex_order(name_codes(#[trigger] ps[t].0), name_codes(name@)) >= 0 by {
                if t > j {
                    assert(lex_order(name_codes(ps[j as int].0), name_codes(ps[t].0)) < 0);
                    lemma_lex_order_antisym(name_codes(ps[j as int].0), name_codes(name@));
                    lemma_lex_order_antisym(name_codes(ps[t].0), name_codes(name@));
                    lemma_lex_order_trans(name_codes(name@), name_codes(ps[j as int].0), name_codes(ps[t].0));
                }
            }
        }
        let equal = if j < self.pins.len() {
            let kj = codes_of(self.pins[j].0.as_str());
            let o = lex_order_exec(&kj, &key);
            proof {
                if o == 0 {
                    lemma_lex_order_antisym(kj@, key@);
                    lemma_name_codes_injective(ps[j as int].0, name@);
                }
                if ps[j as int].0 == name@ {
                    lemma_lex_order_antisym(kj@, kj@);
                }
            }
            o == 0
        } else {
            false
        };
        let ghost nk = name@;
        let ghost nv = version@;
        assert(equal == (j < ps.len() && ps[j as int].0 == nk));
        assert(pin_slot(ps, nk, j as int));
        if equal {
            self.pins.set(j, (name, version));
            assert(pair_texts(self.pins@) =~= ps.update(j as int, (nk, nv)));
            assert(pair_texts(self.pins@) == with_pin(ps, j as int, nk, nv));
            proof {
                let q = pair_texts(self.pins@);
                assert forall|a: int, b: int| 0 <= a < b < q.len() implies lex_order(name_codes(#[trigger] q[a].0), name_codes(#[trigger] q[b].0)) < 0 by {
                    assert(q[a].0 == ps[a].0);
                    assert(q[b].0 == ps[b].0);
                }
            }
        } else {
            self.pins.insert(j, (name, version));
            assert(pair_texts(self.pins@) =~= ps.insert(j as int, (nk, nv)));
            assert(pair_texts(self.pins@) == with_pin(ps, j as int, nk, nv));
            proof {
                let q = pair_texts(self.pins@);
                if j < ps.len() {
                    lemma_lex_order_antisym(name_codes(ps[j as int].0), name_codes(nk));
                    if lex_order(name_codes(ps[j as int].0), name_codes(nk)) == 0 {
                        lemma_name_codes_injective(ps[j as int].0, nk);
                    }
                }
                assert forall|a: int, b: int| 0 <= a < b < q.len() implies lex_order(name_codes(#[trigger] q[a].0), name_codes(#[trigger] q[b].0)) < 0 by {
                    if b < j {
                        assert(q[a] == ps[a] && q[b] == ps[b]);
                    } else if b == j {
                        assert(q[a] == ps[a]);
                    } else if a < j {
                        assert(q[a] == ps[a] && q[b] == ps[b - 1]);
                        lemma_lex_order_antisym(name_codes(ps[j as int].0), name_codes(nk));
                        lemma_lex_order_trans(name_codes(ps[a].0), name_codes(nk), name_codes(ps[j as int].0));
                        if b - 1 > j {
                            lemma_lex_order_trans(name_codes(ps[a].0), name_codes(ps[j as int].0), name_codes(ps[b - 1].0));
                        }
                    } else if a == j {
                        assert(q[b] == ps[b - 1]);
                        lemma_lex_order_antisym(name_codes(ps[j as int].0), name_codes(nk));
                        if b - 1 > j {
                            lemma_lex_order_trans(name_codes(nk), name_codes(ps[j as int].0), name_codes(ps[b - 1].0));
                        }
                    } else {
                        assert(q[a] == ps[a - 1] && q[b] == ps[b - 1]);
                    }
                }
            }
        }
    }
}

} // verus!
