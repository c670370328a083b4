//! The assignment table: which application holds which port.

use vstd::prelude::*;

verus! {

/// The table of port assignments, mapping application name to assigned port.
///
/// Entries are kept as (name, port) pairs; a well-formed table has
/// pairwise-distinct names and pairwise-distinct ports. Abstractly the table
/// is a finite map from name (a sequence of characters) to port.
pub struct PortTable {
    entries: Vec<(String, u16)>,
}

/// The map denoted by a sequence of (name, port) entries, later entries
/// taking precedence.
spec fn map_of(s: Seq<(String, u16)>) -> Map<Seq<char>, u16>
    decreases s.len(),
{
    if s.len() == 0 {
        Map::empty()
    } else {
        map_of(s.drop_last()).insert(s.last().0@, s.last().1)
    }
}

/// A key is in the map exactly when some entry carries it, and the domain is
/// always finite.
proof fn lemma_map_of_dom(s: Seq<(String, u16)>)
    ensures
        forall|k: Seq<char>|
            #[trigger] map_of(s).contains_key(k) <==> exists|i: int|
                0 <= i < s.len() && #[trigger] s[i].0@ == k,
        map_of(s).dom().finite(),
    decreases s.len(),
{
    if s.len() > 0 {
        lemma_map_of_dom(s.drop_last());
        assert forall|k: Seq<char>| #[trigger] map_of(s).contains_key(k) implies exists|i: int|
            0 <= i < s.len() && #[trigger] s[i].0@ == k by {
            if k == s.last().0@ {
                assert(s[s.len() - 1].0@ == k);
            } else {
                let i = choose|i: int| 0 <= i < s.drop_last().len() && #[trigger] s.drop_last()[i].0@ == k;
                assert(s[i].0@ == k);
            }
        }
        assert forall|k: Seq<char>| (exists|i: int| 0 <= i < s.len() && #[trigger] s[i].0@ == k)
            implies #[trigger] map_of(s).contains_key(k) by {
            let i = choose|i: int| 0 <= i < s.len() && #[trigger] s[i].0@ == k;
            if i < s.len() - 1 {
                assert(s.drop_last()[i].0@ == k);
            }
        }
    }
}

/// With pairwise-distinct names, each entry's name maps to that entry's port.
proof fn lemma_map_of_index(s: Seq<(String, u16)>)
    requires
        forall|i: int, j: int| 0 <= i < j < s.len() ==> s[i].0@ != s[j].0@,
    ensures
        forall|i: int|
            0 <= i < s.len() ==> map_of(s).contains_key(#[trigger] s[i].0@) && map_of(s)[s[i].0@]
                == s[i].1,
    decreases s.len(),
{
    if s.len() > 0 {
        lemma_map_of_index(s.drop_last());
        assert forall|i: int| 0 <= i < s.len() implies map_of(s).contains_key(#[trigger] s[i].0@)
            && map_of(s)[s[i].0@] == s[i].1 by {
            if i < s.len() - 1 {
                assert(s.drop_last()[i] == s[i]);
                assert(s[i].0@ != s.last().0@);
            }
        }
    }
}

/// With pairwise-distinct names, a port is a value of the map exactly when
/// some entry carries it.
proof fn lemma_map_of_values(s: Seq<(String, u16)>)
    requires
        forall|i: int, j: int| 0 <= i < j < s.len() ==> s[i].0@ != s[j].0@,
    ensures
        forall|p: u16|
            #[trigger] map_of(s).contains_value(p) <==> exists|i: int|
                0 <= i < s.len() && #[trigger] s[i].1 == p,
{
    lemma_map_of_dom(s);
    lemma_map_of_index(s);
    assert forall|p: u16| #[trigger] map_of(s).contains_value(p) implies exists|i: int|
        0 <= i < s.len() && #[trigger] s[i].1 == p by {
        let k = choose|k: Seq<char>| #[trigger] map_of(s).dom().contains(k) && map_of(s)[k] == p;
        let i = choose|i: int| 0 <= i < s.len() && #[trigger] s[i].0@ == k;
        assert(s[i].1 == p);
    }
    assert forall|p: u16| (exists|i: int| 0 <= i < s.len() && #[trigger] s[i].1 == p)
        implies #[trigger] map_of(s).contains_value(p) by {
        let i = choose|i: int| 0 <= i < s.len() && #[trigger] s[i].1 == p;
        assert(map_of(s).dom().contains(s[i].0@) && map_of(s)[s[i].0@] == p);
    }
}

/// With pairwise-distinct names, the map has exactly one binding per entry.
proof fn lemma_map_of_len(s: Seq<(String, u16)>)
    requires
        forall|i: int, j: int| 0 <= i < j < s.len() ==> s[i].0@ != s[j].0@,
    ensures
        map_of(s).dom().finite(),
        map_of(s).dom().len() == s.len(),
    decreases s.len(),
{
    broadcast use vstd::set::axiom_set_insert_len;

    lemma_map_of_dom(s);
    if s.len() > 0 {
        let dl = s.drop_last();
        lemma_map_of_len(dl);
        lemma_map_of_dom(dl);
        assert(!map_of(dl).contains_key(s.last().0@)) by {
            if exists|i: int| 0 <= i < dl.len() && #[trigger] dl[i].0@ == s.last().0@ {
                let i = choose|i: int| 0 <= i < dl.len() && #[trigger] dl[i].0@ == s.last().0@;
                assert(s[i].0@ == s[s.len() - 1].0@);
            }
        }
        assert(map_of(s).dom() == map_of(dl).dom().insert(s.last().0@));
    }
}

/// Overwriting the entry that carries `name` denotes the same map as a map
/// insertion for `name`.
proof fn lemma_map_of_update(s: Seq<(String, u16)>, i: int, name: String, port: u16)
    requires
        forall|x: int, y: int| 0 <= x < y < s.len() ==> s[x].0@ != s[y].0@,
        0 <= i < s.len(),
        s[i].0@ == name@,
    ensures
        map_of(s.update(i, (name, port))) == map_of(s).insert(name@, port),
    decreases s.len(),
{
    let u = s.update(i, (name, port));
    if i == s.len() - 1 {
        assert(u.drop_last() =~= s.drop_last());
        assert(map_of(u) == map_of(s.drop_last()).insert(name@, port));
        assert(map_of(s.drop_last()).insert(s.last().0@, s.last().1).insert(name@, port)
            =~= map_of(s.drop_last()).insert(name@, port));
    } else {
        let dl = s.drop_last();
        assert(u.drop_last() =~= dl.update(i, (name, port)));
        lemma_map_of_update(dl, i, name, port);
        assert(u.last() == s.last());
        assert(map_of(u) == map_of(dl).insert(name@, port).insert(s.last().0@, s.last().1));
        assert(s[i].0@ != s[s.len() - 1].0@);
        assert(map_of(dl).insert(name@, port).insert(s.last().0@, s.last().1)
            =~= map_of(dl).insert(s.last().0@, s.last().1).insert(name@, port));
    }
}

impl View for PortTable {
    type V = Map<Seq<char>, u16>;

    closed spec fn view(&self) -> Map<Seq<char>, u16> {
        map_of(self.entries@)
    }
}

impl PortTable {
    /// Well-formed: no application name occurs twice, and no two distinct
    /// entries hold the same port.
    pub closed spec fn wf(&self) -> bool {
        &&& forall|i: int, j: int|
            0 <= i < j < self.entries@.len() ==> self.entries@[i].0@ != self.entries@[j].0@
        &&& forall|i: int, j: int|
            0 <= i < j < self.entries@.len() ==> self.entries@[i].1 != self.entries@[j].1
    }

    /// Creates an empty table.
    pub fn new() -> (t: PortTable)
        ensures
            t.wf(),
            t@ == Map::<Seq<char>, u16>::empty(),
    {
        let t = PortTable { entries: Vec::new() };
        proof {
            assert(t@ =~= Map::<Seq<char>, u16>::empty());
        }
        t
    }

    /// The number of applications with an assigned port.
    pub fn len(&self) -> (n: usize)
        requires
            self.wf(),
        ensures
            n == self@.dom().len(),
    {
        proof {
            lemma_map_of_len(self.entries@);
        }
        self.entries.len()
    }

    /// Whether some application currently holds `port`.
    pub fn contains_port(&self, port: u16) -> (r: bool)
        requires
            self.wf(),
        ensures
            r == self@.contains_value(port),
    {
        proof {
            lemma_map_of_values(self.entries@);
        }
        let n = self.entries.len();
        let mut i: usize = 0;
        while i < n
            invariant
                i <= n,
                n == self.entries@.len(),
                self.wf(),
                self@.contains_value(port) <==> exists|j: int|
                    0 <= j < n && #[trigger] self.entries@[j].1 == port,
                forall|j: int| 0 <= j < i ==> #[trigger] self.entries@[j].1 != port,
            decreases n - i,
        {
            if self.entries[i].1 == port {
                return true;
            }
            i += 1;
        }
        false
    }

    /// The port assigned to `name`, if any.
    pub fn get(&self, name: &String) -> (r: Option<u16>)
        requires
            self.wf(),
        ensures
            match r {
                Some(p) => self@.contains_key(name@) && self@[name@] == p,
                None => !self@.contains_key(name@),
            },
    {
        proof {
            lemma_map_of_dom(self.entries@);
            lemma_map_of_index(self.entries@);
        }
        let n = self.entries.len();
        let mut i: usize = 0;
        while i < n
            invariant
                i <= n,
                n == self.entries@.len(),
                self.wf(),
                forall|j: int|
                    0 <= j < self.entries@.len() ==> map_of(self.entries@).contains_key(
                        #[trigger] self.entries@[j].0@,
                    ) && map_of(self.entries@)[self.entries@[j].0@] == self.entries@[j].1,
                self@.contains_key(name@) ==> exists|j: int|
                    0 <= j < n && #[trigger] self.entries@[j].0@ == name@,
                forall|j: int| 0 <= j < i ==> #[trigger] self.entries@[j].0@ != name@,
            decreases n - i,
        {
            if self.entries[i].0 == *name {
                let p = self.entries[i].1;
                return Some(p);
            }
            i += 1;
        }
        None
    }

    /// Records that `name` holds `port`; an existing assignment for `name` is
    /// overwritten. The port must not be held by any other application, so a
    /// well-formed table stays well-formed.
    pub fn insert(&mut self, name: String, port: u16)
        requires
            old(self).wf(),
            forall|k: Seq<char>|
                old(self)@.contains_key(k) && k != name@ ==> old(self)@[k] != port,
        ensures
            final(self).wf(),
            final(self)@ == old(self)@.insert(name@, port),
    {
        proof {
            lemma_map_of_dom(self.entries@);
            lemma_map_of_index(self.entries@);
        }
        let ghost s0 = self.entries@;
        proof {
            assert(s0 == old(self).entries@);
            assert(map_of(s0) == old(self)@);
        }
        let n = self.entries.len();
        let mut i: usize = 0;
        while i < n
            invariant
                i <= n,
                n == self.entries@.len(),
                self.entries@ == s0,
                s0 == old(self).entries@,
                map_of(s0) == old(self)@,
                old(self).wf(),
                self.wf(),
                forall|j: int|
                    0 <= j < s0.len() ==> map_of(s0).contains_key(#[trigger] s0[j].0@) && map_of(
                        s0,
                    )[s0[j].0@] == s0[j].1,
                forall|k: Seq<char>|
                    old(self)@.contains_key(k) && k != name@ ==> old(self)@[k] != port,
                forall|j: int| 0 <= j < i ==> #[trigger] self.entries@[j].0@ != name@,
            decreases n - i,
        {
            if self.entries[i].0 == name {
                let slot = &mut self.entries[i];
                *slot = (name, port);
                proof {
                    assert(self.entries@ == s0.update(i as int, self.entries@[i as int]));
                    lemma_map_of_update(s0, i as int, self.entries@[i as int].0, port);
                    assert(map_of(self.entries@) == old(self)@.insert(name@, port));
                    assert forall|x: int, y: int|
                        0 <= x < y < self.entries@.len() implies self.entries@[x].1
                        != self.entries@[y].1 by {
                        if x != i && y != i {
                            assert(self.entries@[x] == s0[x] && self.entries@[y] == s0[y]);
                        } else {
                            let other = if x == i { y } else { x };
                            assert(s0[other].0@ != name@);
                            assert(map_of(s0)[s0[other].0@] == s0[other].1);
                        }
                    }
                }
                return;
            }
            i += 1;
        }
        self.entries.push((name, port));
        proof {
            assert(self.entries@.drop_last() =~= s0);
            assert(map_of(self.entries@) == map_of(s0).insert(name@, port));
            assert forall|x: int, y: int|
                0 <= x < y < self.entries@.len() implies self.entries@[x].1
                != self.entries@[y].1 by {
                if y == s0.len() {
                    assert(s0[x].0@ != name@);
                    assert(map_of(s0)[s0[x].0@] == s0[x].1);
                }
            }
        }
    }
}

/// Law: in a well-formed table, two distinct application names never hold the
/// same port.
pub proof fn lemma_distinct_names_distinct_ports(t: &PortTable, a: Seq<char>, b: Seq<char>)
    requires
        t.wf(),
        a != b,
        t@.contains_key(a),
        t@.contains_key(b),
    ensures
        t@[a] != t@[b],
{
    let s = t.entries@;
    lemma_map_of_dom(s);
    lemma_map_of_index(s);
    let ia = choose|i: int| 0 <= i < s.len() && #[trigger] s[i].0@ == a;
    let ib = choose|i: int| 0 <= i < s.len() && #[trigger] s[i].0@ == b;
    assert(t@[a] == s[ia].1 && t@[b] == s[ib].1);
}

} // verus!
