//! The address-to-names table, fed by name resolution blocks and DNS answers.

use crate::flow::IPAddress;
use vstd::prelude::*;

verus! {

/// The names known for one address, in the order they were learned.
#[derive(Debug, Clone)]
pub struct NameEntry {
    pub ip: IPAddress,
    pub names: Vec<String>,
}

/// Names known for each address; each address has one entry, and its names are distinct.
#[derive(Debug, Clone)]
pub struct NameTable {
    entries: Vec<NameEntry>,
}

/// The value of a name table: addresses with their names, in order of first sight.
pub type NameTableView = Seq<(IPAddress, Seq<Seq<char>>)>;

pub open spec fn entry_view(e: NameEntry) -> (IPAddress, Seq<Seq<char>>) {
    (e.ip, e.names@.map_values(|n: String| n@))
}

/// Whether an address has an entry.
pub open spec fn has_ip(t: NameTableView, ip: IPAddress) -> bool {
    exists|j: int| 0 <= j < t.len() && t[j].0 == ip
}

/// The position of an address's entry.
pub open spec fn ip_index(t: NameTableView, ip: IPAddress) -> int {
    choose|j: int| 0 <= j < t.len() && t[j].0 == ip
}

/// The names known for an address; none if it has no entry.
pub open spec fn names_for(t: NameTableView, ip: IPAddress) -> Seq<Seq<char>> {
    if has_ip(t, ip) {
        t[ip_index(t, ip)].1
    } else {
        seq![]
    }
}

/// Each address has at most one entry, and no name appears twice for an address.
pub open spec fn table_wf(t: NameTableView) -> bool {
    &&& forall|i: int, j: int| 0 <= i < j < t.len() ==> t[i].0 != t[j].0
    &&& forall|i: int| 0 <= i < t.len() ==> (#[trigger] t[i]).1.no_duplicates()
}

/// The table after learning that `name` belongs to `ip`: the name is added at the end of the
/// address's names unless it is already there.
pub open spec fn with_name(t: NameTableView, ip: IPAddress, name: Seq<char>) -> NameTableView {
    if has_ip(t, ip) {
        let j = ip_index(t, ip);
        if t[j].1.contains(name) {
            t
        } else {
            t.update(j, (ip, t[j].1.push(name)))
        }
    } else {
        t.push((ip, seq![name]))
    }
}

/// The table after learning each pair in turn.
pub open spec fn with_names(t: NameTableView, pairs: Seq<(IPAddress, Seq<char>)>) -> NameTableView
    decreases pairs.len(),
{
    if pairs.len() == 0 {
        t
    } else {
        with_name(with_names(t, pairs.drop_last()), pairs.last().0, pairs.last().1)
    }
}

impl View for NameTable {
    type V = NameTableView;

    closed spec fn view(&self) -> NameTableView {
        self.entries@.map_values(|e: NameEntry| entry_view(e))
    }
}

impl NameTable {
    pub open spec fn wf(&self) -> bool {
        table_wf(self@)
    }

    pub fn new() -> (r: NameTable)
        ensures
            r.wf(),
            r@ == Seq::<(IPAddress, Seq<Seq<char>>)>::empty(),
    {
        let r = NameTable { entries: Vec::new() };
        assert(r@ =~= seq![]);
        r
    }

    /// The number of addresses with names.
    pub fn len(&self) -> (r: usize)
        ensures
            r == self@.len(),
    {
        self.entries.len()
    }

    pub fn is_empty(&self) -> (r: bool)
        ensures
            r == (self@.len() == 0),
    {
        self.entries.len() == 0
    }

    /// The entries, in order of first sight.
    pub fn entries(&self) -> (r: &[NameEntry])
        ensures
            r@.map_values(|e: NameEntry| entry_view(e)) == self@,
    {
        self.entries.as_slice()
    }

    fn find(&self, ip: &IPAddress) -> (r: Option<usize>)
        requires
            self.wf(),
        ensures
            r matches Some(j) ==> j < self@.len() && self@[j as int].0 == *ip && ip_index(self@, *ip) == j,
            r is None ==> !has_ip(self@, *ip),
    {
        let mut i: usize = 0;
        while i < self.entries.len()
            invariant
                i <= self.entries@.len(),
                self.wf(),
                forall|j: int| 0 <= j < i ==> self@[j].0 != *ip,
            decreases self.entries@.len() - i,
        {
            if self.entries[i].ip.eq(ip) {
                proof {
                    assert(self@[i as int].0 == *ip);
                    assert(has_ip(self@, *ip));
                    let k = ip_index(self@, *ip);
                    assert(0 <= k < self@.len() && self@[k].0 == *ip);
                    if k < i {
                        assert(self@[k].0 != self@[i as int].0);
                    } else if k > i {
                        assert(self@[i as int].0 != self@[k].0);
                    }
                }
                return Some(i);
            }
            i = i + 1;
        }
        None
    }

    /// The names known for `ip`, if it has any.
    pub fn get(&self, ip: &IPAddress) -> (r: Option<&Vec<String>>)
        requires
            self.wf(),
        ensures
            (r is None) == !has_ip(self@, *ip),
            r matches Some(v) ==> v@.map_values(|n: String| n@) == names_for(self@, *ip),
    {
        match self.find(ip) {
            Some(j) => Some(&self.entries[j].names),
            None => None,
        }
    }
}

fn contains_name(names: &Vec<String>, name: &String) -> (r: bool)
    ensures
        r == names@.map_values(|n: String| n@).contains(name@),
{
    let ghost texts = names@.map_values(|n: String| n@);
    let mut i: usize = 0;
    while i < names.len()
        invariant
            i <= names@.len(),
            texts == names@.map_values(|n: String| n@),
            forall|j: int| 0 <= j < i ==> texts[j] != name@,
        decreases names@.len() - i,
    {
        if names[i].eq(name) {
            assert(texts[i as int] == name@);
            return true;
        }
        i = i + 1;
    }
    false
}

/// Records that `name` belongs to `ip`, unless the table already says so.
pub fn add_name_resolution(ip: IPAddress, name: String, name_resolutions: &mut NameTable)
    requires
        old(name_resolutions).wf(),
    ensures
        final(name_resolutions).wf(),
        final(name_resolutions)@ == with_name(old(name_resolutions)@, ip, name@),
{
    match name_resolutions.find(&ip) {
        Some(j) => {
            let known = contains_name(&name_resolutions.entries[j].names, &name);
            if !known {
                let ghost before = name_resolutions.entries@;
                let mut entry = name_resolutions.entries.remove(j);
                entry.names.push(name);
                name_resolutions.entries.insert(j, entry);
                proof {
                    let t = old(name_resolutions)@;
                    assert(entry_view(entry).1 =~= t[j as int].1.push(name@));
                    assert(name_resolutions.entries@ =~= before.update(j as int, entry));
                    assert(name_resolutions@ =~= t.update(j as int, (ip, t[j as int].1.push(name@))));
                    assert forall|i: int| 0 <= i < name_resolutions@.len() implies (
                    #[trigger] name_resolutions@[i]).1.no_duplicates() by {
                        if i == j {
                            assert(t[i].1.no_duplicates());
                        }
                    }
                }
            }
        },
        None => {
            let mut names = Vec::new();
            names.push(name);
            let entry = NameEntry { ip, names };
            name_resolutions.entries.push(entry);
            proof {
                let t = old(name_resolutions)@;
                assert(entry_view(entry).1 =~= seq![name@]);
                assert(name_resolutions@ =~= t.push((ip, seq![name@])));
                assert(seq![name@].no_duplicates());
            }
        },
    }
}

/// Whether the table already says that `name` belongs to `ip`.
pub open spec fn knows(t: NameTableView, ip: IPAddress, name: Seq<char>) -> bool {
    has_ip(t, ip) && names_for(t, ip).contains(name)
}

proof fn lemma_index_unique(t: NameTableView, ip: IPAddress, i: int)
    requires
        table_wf(t),
        0 <= i < t.len(),
        t[i].0 == ip,
    ensures
        has_ip(t, ip),
        ip_index(t, ip) == i,
{
    assert(has_ip(t, ip));
    let k = ip_index(t, ip);
    if k < i {
        assert(t[k].0 != t[i].0);
    } else if k > i {
        assert(t[i].0 != t[k].0);
    }
}

proof fn lemma_with_name_facts(t: NameTableView, ip: IPAddress, name: Seq<char>)
    requires
        table_wf(t),
    ensures
        table_wf(with_name(t, ip, name)),
        knows(with_name(t, ip, name), ip, name),
        forall|ip2: IPAddress, n2: Seq<char>| knows(t, ip2, n2) ==> knows(with_name(t, ip, name), ip2, n2),
{
    let t2 = with_name(t, ip, name);
    if has_ip(t, ip) {
        let j = ip_index(t, ip);
        lemma_index_unique(t, ip, j);
        assert(t2.len() == t.len());
        assert forall|i: int| 0 <= i < t.len() implies #[trigger] t2[i].0 == t[i].0 by {}
        assert(table_wf(t2)) by {
            assert forall|i: int| 0 <= i < t2.len() implies (#[trigger] t2[i]).1.no_duplicates() by {
                if i == j && !t[j].1.contains(name) {
                    assert(t[j].1.no_duplicates());
                    assert(t2[i].1 == t[j].1.push(name));
                    assert forall|a: int, b: int| 0 <= a < b < t2[i].1.len() implies t2[i].1[a] != t2[i].1[b] by {
                        if b == t[j].1.len() {
                            assert(t[j].1[a] == t2[i].1[a]);
                        }
                    }
                }
            }
        }
        lemma_index_unique(t2, ip, j);
        if !t[j].1.contains(name) {
            assert(t2[j].1[t[j].1.len() as int] == name);
        }
        assert forall|ip2: IPAddress, n2: Seq<char>| knows(t, ip2, n2) implies knows(t2, ip2, n2) by {
            let k = ip_index(t, ip2);
            lemma_index_unique(t, ip2, k);
            lemma_index_unique(t2, ip2, k);
            let m = choose|m: int| 0 <= m < names_for(t, ip2).len() && names_for(t, ip2)[m] == n2;
            assert(t2[k].1[m] == n2);
        }
    } else {
        assert(t2.len() == t.len() + 1);
        assert forall|i: int| 0 <= i < t.len() implies #[trigger] t2[i] == t[i] by {}
        assert(table_wf(t2)) by {
            assert forall|a: int, b: int| 0 <= a < b < t2.len() implies t2[a].0 != t2[b].0 by {
                if b == t.len() {
                    assert(t2[a].0 == t[a].0);
                }
            }
            assert forall|i: int| 0 <= i < t2.len() implies (#[trigger] t2[i]).1.no_duplicates() by {
                if i < t.len() {
                    assert(t[i].1.no_duplicates());
                }
            }
        }
        lemma_index_unique(t2, ip, t.len() as int);
        assert(t2[t.len() as int].1[0] == name);
        assert forall|ip2: IPAddress, n2: Seq<char>| knows(t, ip2, n2) implies knows(t2, ip2, n2) by {
            let k = ip_index(t, ip2);
            lemma_index_unique(t, ip2, k);
            lemma_index_unique(t2, ip2, k);
            let m = choose|m: int| 0 <= m < names_for(t, ip2).len() && names_for(t, ip2)[m] == n2;
            assert(t2[k].1[m] == n2);
        }
    }
}

proof fn lemma_with_names_facts(t: NameTableView, pairs: Seq<(IPAddress, Seq<char>)>)
    requires
        table_wf(t),
    ensures
        table_wf(with_names(t, pairs)),
        forall|k: int| 0 <= k < pairs.len() ==> knows(with_names(t, pairs), #[trigger] pairs[k].0, pairs[k].1),
    decreases pairs.len(),
{
    if pairs.len() > 0 {
        let rest = pairs.drop_last();
        lemma_with_names_facts(t, rest);
        let mid = with_names(t, rest);
        lemma_with_name_facts(mid, pairs.last().0, pairs.last().1);
        assert forall|k: int| 0 <= k < pairs.len() implies knows(with_names(t, pairs), #[trigger] pairs[k].0, pairs[k].1) by {
            if k < pairs.len() - 1 {
                assert(pairs[k] == rest[k]);
                assert(knows(mid, rest[k].0, rest[k].1));
            }
        }
    }
}

proof fn lemma_with_names_known(t: NameTableView, pairs: Seq<(IPAddress, Seq<char>)>)
    requires
        forall|k: int| 0 <= k < pairs.len() ==> knows(t, #[trigger] pairs[k].0, pairs[k].1),
    ensures
        with_names(t, pairs) == t,
    decreases pairs.len(),
{
    if pairs.len() > 0 {
        let rest = pairs.drop_last();
        assert forall|k: int| 0 <= k < rest.len() implies knows(t, #[trigger] rest[k].0, rest[k].1) by {
            assert(rest[k] == pairs[k]);
        }
        lemma_with_names_known(t, rest);
        let last = pairs[pairs.len() - 1];
        assert(knows(t, last.0, last.1));
    }
}

/// Learning the same pairs a second time changes nothing, and no address ever lists a name
/// twice.
pub proof fn lemma_with_names_idempotent(t: NameTableView, pairs: Seq<(IPAddress, Seq<char>)>)
    requires
        table_wf(t),
    ensures
        with_names(with_names(t, pairs), pairs) == with_names(t, pairs),
        table_wf(with_names(t, pairs)),
{
    lemma_with_names_facts(t, pairs);
    lemma_with_names_known(with_names(t, pairs), pairs);
}

} // verus!
