//! Saved environments: a name-ordered map from environment names to a saved
//! host and port list, and the commands that read and change it.
use vstd::prelude::*;

pub mod interactive;

pub use interactive::{prompt, select_index};
use crate::cli::{environment_name, parse_env_spec, host_error, is_environment_name, is_host, name_error, ports, validate_host, EnvCommand, EnvRequest, entry_port, parse_entries, parse_ports, port_number, ports_view, text_view, Port};
use crate::text::{push_str, string_of, is_digit, lemma_decimal, lemma_first_pos_absent, lemma_first_pos_join, lemma_parse_decimal, lemma_split_absent, lemma_split_join, first_pos, split_on, decimal, push_decimal, chars_of, range_eq, lemma_less_irreflexive, lemma_less_total, lemma_less_transitive, less, seq_less};

verus! {

/// What one environment saves; either field may be unset.
#[derive(Debug)]
pub struct Environment {
    pub host: Option<String>,
    pub ports: Option<Vec<Port>>,
}

/// The model of an [`Environment`].
pub struct EnvironmentView {
    pub host: Option<Seq<char>>,
    pub ports: Option<Seq<Port>>,
}

impl View for Environment {
    type V = EnvironmentView;

    open spec fn view(&self) -> EnvironmentView {
        EnvironmentView { host: text_view(self.host), ports: ports_view(self.ports) }
    }
}

pub open spec fn unset() -> EnvironmentView {
    EnvironmentView { host: None, ports: None }
}

/// A copy of `v`.
pub fn copy_ports(v: &Vec<Port>) -> (r: Vec<Port>)
    ensures
        r@ == v@,
{
    let mut r: Vec<Port> = Vec::new();
    let mut i: usize = 0;
    while i < v.len()
        invariant
            i <= v.len(),
            r@ == v@.take(i as int),
        decreases v.len() - i,
    {
        r.push(Port { local: v[i].local, remote: v[i].remote });
        i = i + 1;
        assert(r@ =~= v@.take(i as int));
    }
    assert(v@.take(v.len() as int) =~= v@);
    r
}

impl Environment {
    /// An environment with neither host nor ports.
    pub fn empty() -> (e: Environment)
        ensures
            e@ == unset(),
    {
        Environment { host: None, ports: None }
    }

    /// A copy of this environment.
    pub fn copy(&self) -> (e: Environment)
        ensures
            e@ == self@,
    {
        let host = match &self.host {
            Some(h) => Some(h.clone()),
            None => None,
        };
        let ports = match &self.ports {
            Some(p) => Some(copy_ports(p)),
            None => None,
        };
        Environment { host, ports }
    }
}

pub type Entry = (Seq<char>, EnvironmentView);

/// The entries in strictly increasing name order.
pub open spec fn sorted(s: Seq<Entry>) -> bool {
    forall|i: int, j: int| 0 <= i < j < s.len() ==> seq_less(#[trigger] s[i].0, #[trigger] s[j].0)
}

pub open spec fn has_name(s: Seq<Entry>, name: Seq<char>) -> bool {
    exists|i: int| 0 <= i < s.len() && (#[trigger] s[i]).0 == name
}

/// A position holding `name`, when there is one.
pub open spec fn index_of(s: Seq<Entry>, name: Seq<char>) -> int {
    choose|i: int| 0 <= i < s.len() && (#[trigger] s[i]).0 == name
}

/// The map from names to saved values that the entries hold.
pub open spec fn entry_map(s: Seq<Entry>) -> Map<Seq<char>, EnvironmentView> {
    Map::new(|k: Seq<char>| has_name(s, k), |k: Seq<char>| s[index_of(s, k)].1)
}

pub proof fn lemma_sorted_unique(s: Seq<Entry>, i: int, j: int)
    requires
        sorted(s),
        0 <= i < s.len(),
        0 <= j < s.len(),
        s[i].0 == s[j].0,
    ensures
        i == j,
{
    if i < j {
        lemma_less_irreflexive(s[i].0);
        assert(seq_less(s[i].0, s[j].0));
    } else if j < i {
        lemma_less_irreflexive(s[i].0);
        assert(seq_less(s[j].0, s[i].0));
    }
}

pub proof fn lemma_entry_map_at(s: Seq<Entry>, i: int)
    requires
        sorted(s),
        0 <= i < s.len(),
    ensures
        entry_map(s).contains_key(s[i].0),
        entry_map(s)[s[i].0] == s[i].1,
{
    let k = s[i].0;
    assert(has_name(s, k));
    let j = index_of(s, k);
    lemma_sorted_unique(s, i, j);
}

/// Inserting a new name at its place in the order adds it to the map.
proof fn lemma_map_insert(s: Seq<Entry>, p: int, e: Entry)
    requires
        sorted(s),
        sorted(s.insert(p, e)),
        0 <= p <= s.len(),
        !has_name(s, e.0),
    ensures
        entry_map(s.insert(p, e)) == entry_map(s).insert(e.0, e.1),
{
    let t = s.insert(p, e);
    let a = entry_map(t);
    let b = entry_map(s).insert(e.0, e.1);
    assert forall|k: Seq<char>| a.contains_key(k) <==> b.contains_key(k) by {
        if has_name(t, k) {
            let i = choose|i: int| 0 <= i < t.len() && (#[trigger] t[i]).0 == k;
            if i < p {
                assert(s[i] == t[i]);
            } else if i > p {
                assert(s[i - 1] == t[i]);
            }
        }
        if has_name(s, k) {
            let i = choose|i: int| 0 <= i < s.len() && (#[trigger] s[i]).0 == k;
            if i < p {
                assert(s[i] == t[i]);
            } else {
                assert(s[i] == t[i + 1]);
            }
        }
        if k == e.0 {
            assert(t[p] == e);
        }
    }
    assert forall|k: Seq<char>| a.contains_key(k) implies a[k] == b[k] by {
        let i = choose|i: int| 0 <= i < t.len() && (#[trigger] t[i]).0 == k;
        lemma_entry_map_at(t, i);
        if i == p {
            assert(t[i] == e);
        } else if i < p {
            assert(s[i] == t[i]);
            lemma_entry_map_at(s, i);
        } else {
            assert(s[i - 1] == t[i]);
            lemma_entry_map_at(s, i - 1);
        }
    }
    assert(a =~= b);
}

/// Replacing the value of the entry at `p` replaces it in the map.
proof fn lemma_map_update(s: Seq<Entry>, p: int, v: EnvironmentView)
    requires
        sorted(s),
        0 <= p < s.len(),
    ensures
        sorted(s.update(p, (s[p].0, v))),
        entry_map(s.update(p, (s[p].0, v))) == entry_map(s).insert(s[p].0, v),
{
    let t = s.update(p, (s[p].0, v));
    assert forall|i: int, j: int| 0 <= i < j < t.len() implies seq_less(
        #[trigger] t[i].0,
        #[trigger] t[j].0,
    ) by {
        assert(t[i].0 == s[i].0 && t[j].0 == s[j].0);
    }
    let a = entry_map(t);
    let b = entry_map(s).insert(s[p].0, v);
    assert forall|k: Seq<char>| a.contains_key(k) <==> b.contains_key(k) by {
        if has_name(t, k) {
            let i = choose|i: int| 0 <= i < t.len() && (#[trigger] t[i]).0 == k;
            assert(s[i].0 == t[i].0);
        }
        if has_name(s, k) {
            let i = choose|i: int| 0 <= i < s.len() && (#[trigger] s[i]).0 == k;
            assert(s[i].0 == t[i].0);
        }
    }
    assert forall|k: Seq<char>| a.contains_key(k) implies a[k] == b[k] by {
        let i = choose|i: int| 0 <= i < t.len() && (#[trigger] t[i]).0 == k;
        lemma_entry_map_at(t, i);
        if i != p {
            assert(s[i] == t[i]);
            lemma_entry_map_at(s, i);
            if k == s[p].0 {
                lemma_sorted_unique(s, i, p);
            }
        }
    }
    assert(a =~= b);
}

/// Removing the entry at `p` removes its name from the map.
proof fn lemma_map_remove(s: Seq<Entry>, p: int)
    requires
        sorted(s),
        0 <= p < s.len(),
    ensures
        sorted(s.remove(p)),
        entry_map(s.remove(p)) == entry_map(s).remove(s[p].0),
{
    let t = s.remove(p);
    assert forall|i: int, j: int| 0 <= i < j < t.len() implies seq_less(
        #[trigger] t[i].0,
        #[trigger] t[j].0,
    ) by {
        let si = if i < p {
            i
        } else {
            i + 1
        };
        let sj = if j < p {
            j
        } else {
            j + 1
        };
        assert(t[i] == s[si] && t[j] == s[sj]);
    }
    let a = entry_map(t);
    let b = entry_map(s).remove(s[p].0);
    assert forall|k: Seq<char>| a.contains_key(k) <==> b.contains_key(k) by {
        if has_name(t, k) {
            let i = choose|i: int| 0 <= i < t.len() && (#[trigger] t[i]).0 == k;
            let si = if i < p {
                i
            } else {
                i + 1
            };
            assert(t[i] == s[si]);
            if k == s[p].0 {
                lemma_sorted_unique(s, si, p);
            }
        }
        if has_name(s, k) && k != s[p].0 {
            let i = choose|i: int| 0 <= i < s.len() && (#[trigger] s[i]).0 == k;
            if i < p {
                assert(t[i] == s[i]);
            } else {
                assert(t[i - 1] == s[i]);
            }
        }
    }
    assert forall|k: Seq<char>| a.contains_key(k) implies a[k] == b[k] by {
        let i = choose|i: int| 0 <= i < t.len() && (#[trigger] t[i]).0 == k;
        lemma_entry_map_at(t, i);
        let si = if i < p {
            i
        } else {
            i + 1
        };
        assert(t[i] == s[si]);
        lemma_entry_map_at(s, si);
    }
    assert(a =~= b);
}

} // verus!

verus! {

pub open spec fn entry_views(v: Seq<(String, Environment)>) -> Seq<Entry> {
    v.map_values(|e: (String, Environment)| (e.0@, e.1@))
}

/// The saved environments, kept in name order as a `BTreeMap` keeps them.
pub struct Config {
    entries: Vec<(String, Environment)>,
}

impl View for Config {
    type V = Map<Seq<char>, EnvironmentView>;

    open spec fn view(&self) -> Map<Seq<char>, EnvironmentView> {
        entry_map(self.entries())
    }
}

impl Config {
    /// The entries, in order.
    pub closed spec fn entries(&self) -> Seq<Entry> {
        entry_views(self.entries@)
    }

    /// Names are strictly increasing, hence distinct.
    pub open spec fn wf(&self) -> bool {
        sorted(self.entries())
    }

    /// The names, in order.
    pub open spec fn names(&self) -> Seq<Seq<char>> {
        self.entries().map_values(|e: Entry| e.0)
    }

    /// No environments.
    pub fn new() -> (c: Config)
        ensures
            c.wf(),
            c.entries() == Seq::<Entry>::empty(),
            c@ == Map::<Seq<char>, EnvironmentView>::empty(),
    {
        let c = Config { entries: Vec::new() };
        assert(c.entries() =~= Seq::<Entry>::empty());
        assert(c@ =~= Map::<Seq<char>, EnvironmentView>::empty());
        c
    }

    pub fn is_empty(&self) -> (r: bool)
        ensures
            r == (self.entries().len() == 0),
    {
        self.entries.len() == 0
    }

    /// Where `name` is, or where it would go.
    fn find(&self, name: &Vec<char>) -> (r: (usize, bool))
        requires
            self.wf(),
        ensures
            r.0 <= self.entries().len(),
            r.1 ==> r.0 < self.entries().len() && self.entries()[r.0 as int].0 == name@,
            r.1 == has_name(self.entries(), name@),
            forall|i: int| 0 <= i < r.0 ==> seq_less(#[trigger] self.entries()[i].0, name@),
            !r.1 ==> forall|i: int|
                r.0 <= i < self.entries().len() ==> seq_less(name@, #[trigger] self.entries()[i].0),
    {
        let ghost s = self.entries();
        let n = self.entries.len();
        let mut i: usize = 0;
        let mut found = false;
        while i < n
            invariant_except_break
                !found,
            invariant
                n == self.entries@.len(),
                s == self.entries(),
                s.len() == n,
                i <= n,
                forall|j: int| 0 <= j < i ==> seq_less(#[trigger] s[j].0, name@),
            ensures
                i <= n,
                forall|j: int| 0 <= j < i ==> seq_less(#[trigger] s[j].0, name@),
                found ==> i < n && s[i as int].0 == name@,
                !found && i < n ==> !seq_less(s[i as int].0, name@) && s[i as int].0 != name@,
            decreases n - i,
        {
            let here = chars_of(self.entries[i].0.as_str());
            assert(s[i as int].0 == self.entries@[i as int].0@);
            if !less(&here, name) {
                found = range_eq(&here, 0, here.len(), name, 0, name.len());
                proof {
                    assert(here@.subrange(0, here@.len() as int) =~= here@);
                    assert(name@.subrange(0, name@.len() as int) =~= name@);
                }
                break;
            }
            i = i + 1;
        }
        proof {
            if i < n {
                assert(s[i as int].0 == self.entries@[i as int].0@);
                lemma_less_total(s[i as int].0, name@);
            }
            if !found && i < n {
                assert(seq_less(name@, s[i as int].0));
                assert forall|j: int| i <= j < n implies seq_less(name@, #[trigger] s[j].0) by {
                    if j > i {
                        lemma_less_transitive(name@, s[i as int].0, s[j].0);
                    }
                }
            }
            if has_name(s, name@) && !found {
                let k = choose|k: int| 0 <= k < s.len() && (#[trigger] s[k]).0 == name@;
                lemma_less_irreflexive(name@);
                if k < i {
                    assert(seq_less(s[k].0, name@));
                } else {
                    assert(seq_less(name@, s[k].0));
                }
            }
        }
        (i, found)
    }

    /// Whether `name` is saved.
    pub fn contains(&self, name: &str) -> (r: bool)
        requires
            self.wf(),
        ensures
            r == self@.contains_key(name@),
    {
        let (_, found) = self.find(&chars_of(name));
        found
    }

    /// Adds `name`, or replaces what it held (`BTreeMap::insert`).
    pub fn insert(&mut self, name: String, env: Environment)
        requires
            old(self).wf(),
        ensures
            final(self).wf(),
            final(self)@ == old(self)@.insert(name@, env@),
    {
        let ghost s = self.entries();
        let ghost e: Entry = (name@, env@);
        let (p, found) = self.find(&chars_of(name.as_str()));
        if found {
            self.entries.set(p, (name, env));
            proof {
                assert(self.entries() =~= s.update(p as int, (s[p as int].0, e.1)));
                lemma_map_update(s, p as int, e.1);
            }
        } else {
            self.entries.insert(p, (name, env));
            proof {
                let t = s.insert(p as int, e);
                assert(self.entries() =~= t);
                assert forall|i: int, j: int| 0 <= i < j < t.len() implies seq_less(
                    #[trigger] t[i].0,
                    #[trigger] t[j].0,
                ) by {
                    if j < p {
                        assert(t[i] == s[i] && t[j] == s[j]);
                    } else if j == p {
                        assert(t[i] == s[i]);
                    } else if i < p {
                        assert(t[i] == s[i] && t[j] == s[j - 1]);
                        lemma_less_transitive(s[i].0, e.0, s[j - 1].0);
                    } else if i == p {
                        assert(t[j] == s[j - 1]);
                    } else {
                        assert(t[i] == s[i - 1] && t[j] == s[j - 1]);
                    }
                }
                lemma_map_insert(s, p as int, e);
            }
        }
    }

    /// Removes `name` when it is saved.
    pub fn remove(&mut self, name: &str)
        requires
            old(self).wf(),
        ensures
            final(self).wf(),
            final(self)@ == old(self)@.remove(name@),
    {
        let ghost s = self.entries();
        let (p, found) = self.find(&chars_of(name));
        if found {
            let _ = self.entries.remove(p);
            proof {
                assert(self.entries() =~= s.remove(p as int));
                lemma_map_remove(s, p as int);
            }
        } else {
            assert(self@ =~= old(self)@.remove(name@));
        }
    }

    /// The saved value of `name`, when there is one.
    pub fn lookup(&self, name: &str) -> (r: Option<&Environment>)
        requires
            self.wf(),
        ensures
            r is Some == self@.contains_key(name@),
            r matches Some(e) ==> e@ == self@[name@],
    {
        let (p, found) = self.find(&chars_of(name));
        if found {
            proof {
                assert(self.entries()[p as int].1 == self.entries@[p as int].1@);
                lemma_entry_map_at(self.entries(), p as int);
            }
            Some(&self.entries[p].1)
        } else {
            None
        }
    }

    /// The names, in order (`BTreeMap::keys`).
    pub fn names_vec(&self) -> (r: Vec<String>)
        ensures
            r@.map_values(|n: String| n@) == self.names(),
    {
        let mut r: Vec<String> = Vec::new();
        let mut i: usize = 0;
        while i < self.entries.len()
            invariant
                i <= self.entries@.len(),
                r@.map_values(|n: String| n@) == self.names().take(i as int),
            decreases self.entries@.len() - i,
        {
            let ghost before = r@;
            r.push(self.entries[i].0.clone());
            proof {
                assert(r@.map_values(|n: String| n@) =~= before.map_values(|n: String| n@).push(
                    self.entries@[i as int].0@,
                ));
                assert(self.names().take(i + 1) =~= self.names().take(i as int).push(
                    self.names()[i as int],
                ));
            }
            i = i + 1;
        }
        assert(self.names().take(self.entries@.len() as int) =~= self.names());
        r
    }
}

} // verus!

verus! {

/// One port as text: `LOCAL:REMOTE`, or only `PORT` when both sides agree and
/// `pair` is not asked for.
pub open spec fn entry_text(p: Port, pair: bool) -> Seq<char> {
    if !pair && p.local == p.remote {
        decimal(p.local as nat)
    } else {
        decimal(p.local as nat) + seq![':'] + decimal(p.remote as nat)
    }
}

/// The entries joined by commas (empty for no ports).
pub open spec fn joined_text(ps: Seq<Port>, pair: bool) -> Seq<char>
    decreases ps.len(),
{
    if ps.len() == 0 {
        seq![]
    } else if ps.len() == 1 {
        entry_text(ps[0], pair)
    } else {
        entry_text(ps[0], pair) + seq![','] + joined_text(ps.drop_first(), pair)
    }
}

/// `PORT` when both sides agree, else `LOCAL:REMOTE`.
pub open spec fn port_text(p: Port) -> Seq<char> {
    entry_text(p, false)
}

/// The port list as `prox env NAME get` shows it.
pub open spec fn ports_text(ps: Seq<Port>) -> Seq<char> {
    joined_text(ps, false)
}

pub proof fn lemma_joined_text_last(ps: Seq<Port>, pair: bool)
    requires
        ps.len() >= 2,
    ensures
        joined_text(ps, pair) == joined_text(ps.drop_last(), pair) + seq![','] + entry_text(
            ps.last(),
            pair,
        ),
    decreases ps.len(),
{
    if ps.len() == 2 {
        assert(ps.drop_first().len() == 1);
        assert(ps.drop_last().len() == 1);
        assert(ps.drop_first()[0] == ps.last());
        assert(ps.drop_last()[0] == ps[0]);
        assert(joined_text(ps.drop_first(), pair) == entry_text(ps.last(), pair));
        assert(joined_text(ps.drop_last(), pair) == entry_text(ps[0], pair));
    } else {
        lemma_joined_text_last(ps.drop_first(), pair);
        assert(ps.drop_last().drop_first() =~= ps.drop_first().drop_last());
        assert(ps.drop_first().last() == ps.last());
        assert(joined_text(ps, pair) =~= joined_text(ps.drop_last(), pair) + seq![','] + entry_text(
            ps.last(),
            pair,
        ));
    }
}

fn push_port(s: &mut String, p: Port)
    ensures
        final(s)@ == old(s)@ + port_text(p),
{
    push_decimal(s, p.local as u64);
    if p.local != p.remote {
        s.push(':');
        push_decimal(s, p.remote as u64);
    }
    assert(s@ =~= old(s)@ + port_text(p));
}

/// The port list as `prox -p` takes it.
pub fn format_ports(ports: &Vec<Port>) -> (r: String)
    ensures
        r@ == ports_text(ports@),
{
    let mut s = String::new();
    let mut i: usize = 0;
    while i < ports.len()
        invariant
            i <= ports.len(),
            s@ == ports_text(ports@.take(i as int)),
        decreases ports.len() - i,
    {
        proof {
            if i >= 1 {
                lemma_joined_text_last(ports@.take(i + 1), false);
                assert(ports@.take(i + 1).drop_last() =~= ports@.take(i as int));
            } else {
                assert(ports@.take(0) =~= Seq::<Port>::empty());
            }
        }
        if i > 0 {
            s.push(',');
        }
        push_port(&mut s, ports[i]);
        i = i + 1;
        assert(s@ =~= ports_text(ports@.take(i as int)));
    }
    assert(ports@.take(ports.len() as int) =~= ports@);
    s
}

} // verus!

verus! {

/// A port list as `ports` accepts it: every port in 1..=65535, no local port twice.
pub open spec fn valid_ports(ps: Seq<Port>) -> bool {
    &&& forall|i: int| 0 <= i < ps.len() ==> (#[trigger] ps[i]).local > 0 && ps[i].remote > 0
    &&& forall|i: int, j: int|
        0 <= i < j < ps.len() ==> (#[trigger] ps[i]).local != (#[trigger] ps[j]).local
}

pub proof fn lemma_digits_avoid(n: nat, c: char)
    requires
        !is_digit(c),
    ensures
        forall|i: int| 0 <= i < decimal(n).len() ==> decimal(n)[i] != c,
{
    lemma_decimal(n);
    assert forall|i: int| 0 <= i < decimal(n).len() implies decimal(n)[i] != c by {
        assert(is_digit(decimal(n)[i]));
    }
}

proof fn lemma_entry_text(p: Port, pair: bool)
    requires
        p.local > 0,
        p.remote > 0,
    ensures
        entry_port(entry_text(p, pair)) == Ok::<Port, Seq<char>>(p),
        forall|i: int| 0 <= i < entry_text(p, pair).len() ==> entry_text(p, pair)[i] != ',',
{
    let l = decimal(p.local as nat);
    let r = decimal(p.remote as nat);
    lemma_parse_decimal(p.local as nat);
    lemma_parse_decimal(p.remote as nat);
    lemma_digits_avoid(p.local as nat, ':');
    lemma_digits_avoid(p.local as nat, ',');
    lemma_digits_avoid(p.remote as nat, ',');
    if !pair && p.local == p.remote {
        lemma_first_pos_absent(l, ':');
    } else {
        lemma_first_pos_join(l, ':', r);
        let t = l + seq![':'] + r;
        assert forall|i: int| 0 <= i < t.len() implies t[i] != ',' by {
            if i < l.len() {
                assert(t[i] == l[i]);
            } else if i > l.len() {
                assert(t[i] == r[i - l.len() - 1]);
            }
        }
    }
}

/// A valid port list, written either way, parses back to itself.
pub proof fn lemma_parse_joined(ps: Seq<Port>, seen: Set<u16>, pair: bool)
    requires
        ps.len() > 0,
        valid_ports(ps),
        forall|i: int| 0 <= i < ps.len() ==> !seen.contains((#[trigger] ps[i]).local),
    ensures
        parse_entries(split_on(joined_text(ps, pair), ','), seen) == Ok::<Seq<Port>, Seq<char>>(ps),
    decreases ps.len(),
{
    let p = ps[0];
    assert(p.local > 0 && p.remote > 0);
    assert(!seen.contains(p.local));
    lemma_entry_text(p, pair);
    if ps.len() == 1 {
        lemma_split_absent(entry_text(p, pair), ',');
        let entries = seq![entry_text(p, pair)];
        assert(joined_text(ps, pair) == entry_text(p, pair));
        assert(entries.drop_first() =~= Seq::<Seq<char>>::empty());
        assert(parse_entries(entries.drop_first(), seen.insert(p.local)) == Ok::<
            Seq<Port>,
            Seq<char>,
        >(Seq::<Port>::empty()));
        assert(seq![p] + Seq::<Port>::empty() =~= ps);
    } else {
        let rest = ps.drop_first();
        assert(joined_text(ps, pair) == entry_text(p, pair) + seq![','] + joined_text(rest, pair));
        lemma_split_join(entry_text(p, pair), ',', joined_text(rest, pair));
        let entries = seq![entry_text(p, pair)] + split_on(joined_text(rest, pair), ',');
        assert(entries.drop_first() =~= split_on(joined_text(rest, pair), ','));
        assert forall|i: int| 0 <= i < rest.len() implies !seen.insert(p.local).contains(
            (#[trigger] rest[i]).local,
        ) by {
            assert(rest[i] == ps[i + 1]);
            assert(ps[0].local != ps[i + 1].local);
        }
        assert forall|i: int| 0 <= i < rest.len() implies (#[trigger] rest[i]).local > 0
            && rest[i].remote > 0 by {
            assert(rest[i] == ps[i + 1]);
        }
        assert forall|i: int, j: int| 0 <= i < j < rest.len() implies (#[trigger] rest[i]).local
            != (#[trigger] rest[j]).local by {
            assert(rest[i] == ps[i + 1] && rest[j] == ps[j + 1]);
        }
        lemma_parse_joined(rest, seen.insert(p.local), pair);
        assert(seq![p] + rest =~= ps);
    }
}

/// Law: a valid, non-empty port list survives formatting and parsing again
/// unchanged; this is what lets saved port lists be checked by re-parsing.
pub proof fn law_ports_round_trip(ps: Seq<Port>)
    requires
        ps.len() > 0,
        valid_ports(ps),
    ensures
        parse_ports(ports_text(ps)) == Ok::<Seq<Port>, Seq<char>>(ps),
{
    lemma_parse_joined(ps, Set::empty(), false);
}

proof fn lemma_entries_valid(entries: Seq<Seq<char>>, seen: Set<u16>)
    ensures
        parse_entries(entries, seen) matches Ok(ps) ==> {
            &&& ps.len() == entries.len()
            &&& valid_ports(ps)
            &&& forall|i: int| 0 <= i < ps.len() ==> !seen.contains((#[trigger] ps[i]).local)
        },
    decreases entries.len(),
{
    if entries.len() > 0 {
        let rest = entries.drop_first();
        if let Ok(p) = entry_port(entries[0]) {
            if !seen.contains(p.local) {
                lemma_entries_valid(rest, seen.insert(p.local));
                if let Ok(tail) = parse_entries(rest, seen.insert(p.local)) {
                    let ps = seq![p] + tail;
                    assert(port_number(entries[0].take(first_pos(entries[0], ':') as int)) is Some
                        || port_number(entries[0]) is Some);
                    assert forall|i: int| 0 <= i < ps.len() implies (#[trigger] ps[i]).local > 0
                        && ps[i].remote > 0 by {
                        if i > 0 {
                            assert(ps[i] == tail[i - 1]);
                        }
                    }
                    assert forall|i: int, j: int| 0 <= i < j < ps.len() implies (
                    #[trigger] ps[i]).local != (#[trigger] ps[j]).local by {
                        assert(ps[j] == tail[j - 1]);
                        if i > 0 {
                            assert(ps[i] == tail[i - 1]);
                        } else {
                            assert(!seen.insert(p.local).contains(tail[j - 1].local));
                        }
                    }
                    assert forall|i: int| 0 <= i < ps.len() implies !seen.contains(
                        (#[trigger] ps[i]).local,
                    ) by {
                        if i > 0 {
                            assert(ps[i] == tail[i - 1]);
                            assert(!seen.insert(p.local).contains(tail[i - 1].local));
                        }
                    }
                }
            }
        }
    }
}

/// Law: every list that `ports` accepts is non-empty, has ports in 1..=65535 and
/// no local port twice.
pub proof fn law_parsed_ports_valid(value: Seq<char>)
    ensures
        parse_ports(value) matches Ok(ps) ==> ps.len() > 0 && valid_ports(ps),
{
    lemma_entries_valid(split_on(value, ','), Set::empty());
}

} // verus!

verus! {

pub open spec fn missing_error(name: Seq<char>) -> Seq<char> {
    "environment '"@ + name + "' does not exist"@
}

pub open spec fn exists_error(name: Seq<char>) -> Seq<char> {
    "environment '"@ + name + "' already exists"@
}

pub open spec fn empty_list_text() -> Seq<char> {
    "No saved environments. Add one with: prox env add NAME\n"@
}

/// One name per line.
pub open spec fn lines(names: Seq<Seq<char>>) -> Seq<char>
    decreases names.len(),
{
    if names.len() == 0 {
        seq![]
    } else {
        lines(names.drop_last()) + names.last() + seq!['\n']
    }
}

/// What `prox env list` prints.
pub open spec fn list_text(names: Seq<Seq<char>>) -> Seq<char> {
    if names.len() == 0 {
        empty_list_text()
    } else {
        lines(names)
    }
}

pub open spec fn or_not_set(o: Option<Seq<char>>) -> Seq<char> {
    match o {
        Some(s) => s,
        None => "(not set)"@,
    }
}

/// What `prox env NAME get` prints.
pub open spec fn get_text(name: Seq<char>, e: EnvironmentView) -> Seq<char> {
    name + "\n  host: "@ + or_not_set(e.host) + "\n  ports: "@ + or_not_set(
        match e.ports {
            Some(p) => Some(ports_text(p)),
            None => None,
        },
    ) + "\n"@
}

pub open spec fn quoted_line(before: Seq<char>, name: Seq<char>) -> Seq<char> {
    before + name + "'.\n"@
}

/// The effect of an env command on the saved environments.
pub struct EnvEffect {
    pub config: Map<Seq<char>, EnvironmentView>,
    pub save: bool,
    pub output: Seq<char>,
}

/// `prox env ...` on the environments `m`, whose names in order are `names`.
pub open spec fn env_effect(
    names: Seq<Seq<char>>,
    m: Map<Seq<char>, EnvironmentView>,
    request: EnvRequest,
) -> Result<EnvEffect, Seq<char>> {
    match request {
        EnvRequest::List => Ok(EnvEffect { config: m, save: false, output: list_text(names) }),
        EnvRequest::Get(n) => if m.contains_key(n) {
            Ok(EnvEffect { config: m, save: false, output: get_text(n, m[n]) })
        } else {
            Err(missing_error(n))
        },
        EnvRequest::Add(n) => if m.contains_key(n) {
            Err(exists_error(n))
        } else {
            Ok(
                EnvEffect {
                    config: m.insert(n, unset()),
                    save: true,
                    output: quoted_line("Added environment '"@, n),
                },
            )
        },
        EnvRequest::Remove(n) => if m.contains_key(n) {
            Ok(
                EnvEffect {
                    config: m.remove(n),
                    save: true,
                    output: quoted_line("Removed environment '"@, n),
                },
            )
        } else {
            Err(missing_error(n))
        },
        EnvRequest::Host(n, h) => if m.contains_key(n) {
            Ok(
                EnvEffect {
                    config: m.insert(n, EnvironmentView { host: h, ports: m[n].ports }),
                    save: true,
                    output: quoted_line("Updated host for '"@, n),
                },
            )
        } else {
            Err(missing_error(n))
        },
        EnvRequest::Ports(n, p) => if m.contains_key(n) {
            Ok(
                EnvEffect {
                    config: m.insert(n, EnvironmentView { host: m[n].host, ports: p }),
                    save: true,
                    output: quoted_line("Updated ports for '"@, n),
                },
            )
        } else {
            Err(missing_error(n))
        },
    }
}

/// What running an env command prints, and whether the environments must be
/// written back.
pub struct Outcome {
    pub save: bool,
    pub output: String,
}

fn quoted(before: &str, name: &str) -> (r: String)
    ensures
        r@ == quoted_line(before@, name@),
{
    let mut s = string_of(before);
    push_str(&mut s, name);
    push_str(&mut s, "'.\n");
    s
}

fn missing(name: &str) -> (r: String)
    ensures
        r@ == missing_error(name@),
{
    let mut s = string_of("environment '");
    push_str(&mut s, name);
    push_str(&mut s, "' does not exist");
    s
}

impl Config {
    /// The saved value of `name`, or the error that it does not exist.
    pub fn get(&self, name: &str) -> (r: Result<&Environment, String>)
        requires
            self.wf(),
        ensures
            match r {
                Ok(e) => self@.contains_key(name@) && e@ == self@[name@],
                Err(m) => !self@.contains_key(name@) && m@ == missing_error(name@),
            },
    {
        match self.lookup(name) {
            Some(e) => Ok(e),
            None => Err(missing(name)),
        }
    }
}

fn list_output(config: &Config) -> (r: String)
    ensures
        r@ == list_text(config.names()),
{
    let names = config.names_vec();
    let ghost views = names@.map_values(|n: String| n@);
    if names.len() == 0 {
        return string_of("No saved environments. Add one with: prox env add NAME\n");
    }
    let mut s = String::new();
    let mut i: usize = 0;
    while i < names.len()
        invariant
            i <= names.len(),
            views == names@.map_values(|n: String| n@),
            views == config.names(),
            s@ == lines(views.take(i as int)),
        decreases names.len() - i,
    {
        proof {
            assert(views.take(i + 1).drop_last() =~= views.take(i as int));
            assert(views[i as int] == names@[i as int]@);
        }
        push_str(&mut s, names[i].as_str());
        s.push('\n');
        i = i + 1;
        assert(s@ =~= lines(views.take(i as int)));
    }
    assert(views.take(names.len() as int) =~= views);
    s
}

fn get_output(name: &str, e: &Environment) -> (r: String)
    ensures
        r@ == get_text(name@, e@),
{
    let mut s = string_of(name);
    push_str(&mut s, "\n  host: ");
    match &e.host {
        Some(h) => push_str(&mut s, h.as_str()),
        None => push_str(&mut s, "(not set)"),
    }
    push_str(&mut s, "\n  ports: ");
    match &e.ports {
        Some(p) => {
            let t = format_ports(p);
            push_str(&mut s, t.as_str());
        },
        None => push_str(&mut s, "(not set)"),
    }
    push_str(&mut s, "\n");
    assert(s@ =~= get_text(name@, e@));
    s
}

/// Runs `prox env ...` on the saved environments; the caller writes them back
/// when `save` is set, then prints `output`.
pub fn execute(config: &mut Config, command: EnvCommand) -> (r: Result<Outcome, String>)
    requires
        old(config).wf(),
    ensures
        final(config).wf(),
        match (r, env_effect(old(config).names(), old(config)@, command@)) {
            (Ok(o), Ok(x)) => final(config)@ == x.config && o.save == x.save && o.output@
                == x.output,
            (Err(e), Err(m)) => e@ == m && final(config)@ == old(config)@,
            _ => false,
        },
{
    match command {
        EnvCommand::List => Ok(Outcome { save: false, output: list_output(config) }),
        EnvCommand::Get(name) => match config.get(name.as_str()) {
            Ok(e) => Ok(Outcome { save: false, output: get_output(name.as_str(), e) }),
            Err(m) => Err(m),
        },
        EnvCommand::Add(name) => {
            if config.contains(name.as_str()) {
                let mut s = string_of("environment '");
                push_str(&mut s, name.as_str());
                push_str(&mut s, "' already exists");
                return Err(s);
            }
            let output = quoted("Added environment '", name.as_str());
            config.insert(name, Environment::empty());
            Ok(Outcome { save: true, output })
        },
        EnvCommand::Remove(name) => {
            if !config.contains(name.as_str()) {
                return Err(missing(name.as_str()));
            }
            config.remove(name.as_str());
            Ok(Outcome { save: true, output: quoted("Removed environment '", name.as_str()) })
        },
        EnvCommand::Host(name, host) => {
            let ports = match config.lookup(name.as_str()) {
                None => {
                    return Err(missing(name.as_str()));
                },
                Some(e) => match &e.ports {
                    Some(p) => Some(copy_ports(p)),
                    None => None,
                },
            };
            let output = quoted("Updated host for '", name.as_str());
            config.insert(name, Environment { host, ports });
            Ok(Outcome { save: true, output })
        },
        EnvCommand::Ports(name, ports) => {
            let host = match config.lookup(name.as_str()) {
                None => {
                    return Err(missing(name.as_str()));
                },
                Some(e) => match &e.host {
                    Some(h) => Some(h.clone()),
                    None => None,
                },
            };
            let output = quoted("Updated ports for '", name.as_str());
            config.insert(name, Environment { host, ports });
            Ok(Outcome { save: true, output })
        },
    }
}

} // verus!

verus! {

/// The first problem with one saved environment: its name, its host, or a port
/// list that does not parse back.
pub open spec fn entry_problem(e: Entry) -> Option<Seq<char>> {
    if !is_environment_name(e.0) {
        Some(name_error())
    } else if e.1.host is Some && !is_host(e.1.host->0) {
        Some(host_error())
    } else if e.1.ports is Some && parse_ports(ports_text(e.1.ports->0)) is Err {
        Some(parse_ports(ports_text(e.1.ports->0))->Err_0)
    } else {
        None
    }
}

/// The first problem in name order, if any.
pub open spec fn config_problem(s: Seq<Entry>) -> Option<Seq<char>>
    decreases s.len(),
{
    if s.len() == 0 {
        None
    } else {
        match entry_problem(s[0]) {
            Some(e) => Some(e),
            None => config_problem(s.drop_first()),
        }
    }
}

impl Config {
    /// Checks what was read from disk the way the command line is checked.
    pub fn check(&self) -> (r: Result<(), String>)
        ensures
            match (r, config_problem(self.entries())) {
                (Ok(()), None) => true,
                (Err(e), Some(m)) => e@ == m,
                _ => false,
            },
            self.wf() ==> (r is Ok <==> environments_valid(self@)),
    {
        let r = self.first_problem();
        proof {
            if self.wf() {
                if r is Ok {
                    law_checked_environments_valid(*self);
                } else if environments_valid(self@) {
                    law_valid_environments_pass_check(*self);
                }
            }
        }
        r
    }

    /// The error of the first saved environment, in name order, with a problem.
    fn first_problem(&self) -> (r: Result<(), String>)
        ensures
            match (r, config_problem(self.entries())) {
                (Ok(()), None) => true,
                (Err(e), Some(m)) => e@ == m,
                _ => false,
            },
    {
        let ghost s = self.entries();
        let n = self.entries.len();
        let mut i: usize = 0;
        assert(s.skip(0) =~= s);
        while i < n
            invariant
                n == self.entries@.len(),
                s == self.entries(),
                i <= n,
                config_problem(s) == config_problem(s.skip(i as int)),
            decreases n - i,
        {
            proof {
                assert(s.skip(i as int).drop_first() =~= s.skip(i + 1));
                assert(s.skip(i as int)[0] == s[i as int]);
                assert(s[i as int].0 == self.entries@[i as int].0@);
                assert(s[i as int].1 == self.entries@[i as int].1@);
            }
            let (name, saved) = (&self.entries[i].0, &self.entries[i].1);
            match environment_name(name.as_str()) {
                Err(e) => {
                    return Err(e);
                },
                Ok(()) => {},
            }
            match &saved.host {
                Some(h) => match validate_host(h.as_str()) {
                    Err(e) => {
                        return Err(e);
                    },
                    Ok(()) => {},
                },
                None => {},
            }
            match &saved.ports {
                Some(p) => {
                    let t = format_ports(p);
                    match ports(t.as_str()) {
                        Err(e) => {
                            return Err(e);
                        },
                        Ok(_) => {},
                    }
                },
                None => {},
            }
            i = i + 1;
        }
        Ok(())
    }
}

pub open spec fn missing_destination_error() -> Seq<char> {
    "missing destination; use --host HOST, set an environment host, or set PROX_HOST"@
}

pub open spec fn missing_ports_error() -> Seq<char> {
    "missing ports; use -p PORTS or set an environment's ports"@
}

/// The ports and destination of a run: flags first, then the named environment,
/// then (for the host) `PROX_HOST`.
pub open spec fn resolve_spec(
    ports: Option<Seq<Port>>,
    host: Option<Seq<char>>,
    name: Option<Seq<char>>,
    m: Map<Seq<char>, EnvironmentView>,
    fallback_host: Option<Seq<char>>,
) -> Result<(Seq<Port>, Seq<char>), Seq<char>> {
    if name is Some && !m.contains_key(name->0) {
        Err(missing_error(name->0))
    } else {
        let saved = if name is Some {
            m[name->0]
        } else {
            unset()
        };
        let h = if host is Some {
            host
        } else if saved.host is Some {
            saved.host
        } else {
            fallback_host
        };
        let p = if ports is Some {
            ports
        } else {
            saved.ports
        };
        if h is None {
            Err(missing_destination_error())
        } else if !is_host(h->0) {
            Err(host_error())
        } else if p is None {
            Err(missing_ports_error())
        } else {
            Ok((p->0, h->0))
        }
    }
}

/// Decides the ports and destination of a run. `config` holds the saved
/// environments (it is only read when `name` is given) and `fallback_host` the
/// value of `PROX_HOST`.
pub fn resolve(
    ports: Option<Vec<Port>>,
    host: Option<String>,
    name: Option<&str>,
    config: &Config,
    fallback_host: Option<String>,
) -> (r: Result<(Vec<Port>, String), String>)
    requires
        config.wf(),
    ensures
        match (
            r,
            resolve_spec(
                ports_view(ports),
                text_view(host),
                match name {
                    Some(n) => Some(n@),
                    None => None,
                },
                config@,
                text_view(fallback_host),
            ),
        ) {
            (Ok((p, h)), Ok((q, g))) => p@ == q && h@ == g,
            (Err(e), Err(m)) => e@ == m,
            _ => false,
        },
{
    let saved = match name {
        Some(n) => match config.get(n) {
            Ok(e) => e.copy(),
            Err(m) => {
                return Err(m);
            },
        },
        None => Environment::empty(),
    };
    let host = match host {
        Some(h) => h,
        None => match saved.host {
            Some(h) => h,
            None => match fallback_host {
                Some(h) => h,
                None => {
                    return Err(
                        string_of(
                            "missing destination; use --host HOST, set an environment host, or set PROX_HOST",
                        ),
                    );
                },
            },
        },
    };
    match validate_host(host.as_str()) {
        Err(e) => {
            return Err(e);
        },
        Ok(()) => {},
    }
    let ports = match ports {
        Some(p) => p,
        None => match saved.ports {
            Some(p) => p,
            None => {
                return Err(string_of("missing ports; use -p PORTS or set an environment's ports"));
            },
        },
    };
    Ok((ports, host))
}

pub open spec fn raced_error(name: Seq<char>) -> Seq<char> {
    "environment '"@ + name
        + "' was created by another process; existing config was left unchanged"@
}

/// Saves an environment made interactively, unless another process created the
/// name meanwhile. Returns the line to print once it is written.
pub fn create(config: &mut Config, name: String, host: String, ports: Vec<Port>) -> (r: Result<
    String,
    String,
>)
    requires
        old(config).wf(),
    ensures
        final(config).wf(),
        match r {
            Ok(line) => !old(config)@.contains_key(name@) && final(config)@ == old(config)@.insert(
                name@,
                EnvironmentView { host: Some(host@), ports: Some(ports@) },
            ) && line@ == quoted_line("Saved environment '"@, name@),
            Err(e) => {
                &&& old(config)@.contains_key(name@)
                &&& e@ == raced_error(name@)
                &&& final(config)@ == old(config)@
            },
        },
{
    if config.contains(name.as_str()) {
        let mut s = string_of("environment '");
        push_str(&mut s, name.as_str());
        push_str(
            &mut s,
            "' was created by another process; existing config was left unchanged",
        );
        return Err(s);
    }
    let line = quoted("Saved environment '", name.as_str());
    config.insert(name, Environment { host: Some(host), ports: Some(ports) });
    Ok(line)
}

} // verus!

verus! {

/// The name an env command is about, if any.
pub open spec fn request_name(r: EnvRequest) -> Option<Seq<char>> {
    match r {
        EnvRequest::List => None,
        EnvRequest::Add(n) => Some(n),
        EnvRequest::Remove(n) => Some(n),
        EnvRequest::Get(n) => Some(n),
        EnvRequest::Host(n, _) => Some(n),
        EnvRequest::Ports(n, _) => Some(n),
    }
}

/// Law: `add` then `get` shows the new environment with nothing set, and a second
/// `add` of the same name is refused.
pub proof fn law_add_then_get(
    names: Seq<Seq<char>>,
    later: Seq<Seq<char>>,
    m: Map<Seq<char>, EnvironmentView>,
    n: Seq<char>,
)
    requires
        !m.contains_key(n),
    ensures
        env_effect(names, m, EnvRequest::Add(n)) matches Ok(x) && {
            &&& x.save
            &&& env_effect(later, x.config, EnvRequest::Get(n)) matches Ok(y) && y.output
                == get_text(n, unset())
            &&& env_effect(later, x.config, EnvRequest::Add(n)) == Err::<EnvEffect, Seq<char>>(
                exists_error(n),
            )
        },
{
}

/// Law: what `host set` or `host clear` writes is what `get` reads back, and the
/// saved ports stay.
pub proof fn law_host_then_get(
    names: Seq<Seq<char>>,
    later: Seq<Seq<char>>,
    m: Map<Seq<char>, EnvironmentView>,
    n: Seq<char>,
    h: Option<Seq<char>>,
)
    requires
        m.contains_key(n),
    ensures
        env_effect(names, m, EnvRequest::Host(n, h)) matches Ok(x) && {
            &&& x.config[n] == EnvironmentView { host: h, ports: m[n].ports }
            &&& env_effect(later, x.config, EnvRequest::Get(n)) matches Ok(y) && y.output
                == get_text(n, EnvironmentView { host: h, ports: m[n].ports })
        },
{
}

/// Law: what `ports set` or `ports clear` writes is what `get` reads back, and the
/// saved host stays.
pub proof fn law_ports_then_get(
    names: Seq<Seq<char>>,
    later: Seq<Seq<char>>,
    m: Map<Seq<char>, EnvironmentView>,
    n: Seq<char>,
    p: Option<Seq<Port>>,
)
    requires
        m.contains_key(n),
    ensures
        env_effect(names, m, EnvRequest::Ports(n, p)) matches Ok(x) && {
            &&& x.config[n] == EnvironmentView { host: m[n].host, ports: p }
            &&& env_effect(later, x.config, EnvRequest::Get(n)) matches Ok(y) && y.output
                == get_text(n, EnvironmentView { host: m[n].host, ports: p })
        },
{
}

/// Law: after `remove`, the environment is gone: `get` and a second `remove` fail.
pub proof fn law_remove_then_get(
    names: Seq<Seq<char>>,
    later: Seq<Seq<char>>,
    m: Map<Seq<char>, EnvironmentView>,
    n: Seq<char>,
)
    requires
        m.contains_key(n),
    ensures
        env_effect(names, m, EnvRequest::Remove(n)) matches Ok(x) && {
            &&& !x.config.contains_key(n)
            &&& env_effect(later, x.config, EnvRequest::Get(n)) == Err::<EnvEffect, Seq<char>>(
                missing_error(n),
            )
            &&& env_effect(later, x.config, EnvRequest::Remove(n)) == Err::<
                EnvEffect,
                Seq<char>,
            >(missing_error(n))
        },
{
}

/// Law: an env command changes at most the environment it names, and `list` and
/// `get` change nothing and ask for no write.
pub proof fn law_only_the_named_environment_changes(
    names: Seq<Seq<char>>,
    m: Map<Seq<char>, EnvironmentView>,
    request: EnvRequest,
    k: Seq<char>,
)
    requires
        request_name(request) != Some(k),
    ensures
        env_effect(names, m, request) matches Ok(x) ==> {
            &&& x.config.contains_key(k) == m.contains_key(k)
            &&& m.contains_key(k) ==> x.config[k] == m[k]
        },
        (request is List || request is Get) ==> (env_effect(names, m, request) matches Ok(x)
            ==> x.config == m && !x.save),
{
}

} // verus!

verus! {

/// Law: flags win over the saved environment, and `PROX_HOST` only fills in a
/// host that neither a flag nor the environment gives.
pub proof fn law_resolve_precedence(
    ports: Option<Seq<Port>>,
    host: Option<Seq<char>>,
    name: Option<Seq<char>>,
    m: Map<Seq<char>, EnvironmentView>,
    fallback_host: Option<Seq<char>>,
)
    ensures
        ({
            let saved = if name is Some {
                m[name->0]
            } else {
                unset()
            };
            resolve_spec(ports, host, name, m, fallback_host) matches Ok((p, h)) ==> {
                &&& (ports is Some ==> p == ports->0)
                &&& (ports is None ==> saved.ports == Some(p))
                &&& (host is Some ==> h == host->0)
                &&& (host is None && saved.host is Some ==> h == saved.host->0)
                &&& (host is None && saved.host is None ==> fallback_host == Some(h))
            }
        }),
{
}

} // verus!

verus! {

/// Every saved environment passes the check made when the file is read.
pub open spec fn environments_valid(m: Map<Seq<char>, EnvironmentView>) -> bool {
    forall|k: Seq<char>| #[trigger] m.contains_key(k) ==> entry_problem((k, m[k])) is None
}

/// What the command line guarantees of a parsed env command.
pub open spec fn request_valid(r: EnvRequest) -> bool {
    match r {
        EnvRequest::List => true,
        EnvRequest::Add(n) => is_environment_name(n),
        EnvRequest::Remove(n) => is_environment_name(n),
        EnvRequest::Get(n) => is_environment_name(n),
        EnvRequest::Host(n, h) => is_environment_name(n) && (h matches Some(x) ==> is_host(x)),
        EnvRequest::Ports(n, p) => is_environment_name(n) && (p matches Some(q) ==> q.len() > 0
            && valid_ports(q)),
    }
}

proof fn lemma_parsed_request_valid(a: Seq<Seq<char>>)
    ensures
        parse_env_spec(a) matches Ok(r) ==> request_valid(r),
{
    if a.len() == 4 {
        law_parsed_ports_valid(a[3]);
    }
}

/// A saved value under a valid name, with a valid host and a port list that
/// parses back, passes.
proof fn lemma_entry_valid(n: Seq<char>, e: EnvironmentView)
    requires
        is_environment_name(n),
        e.host matches Some(h) ==> is_host(h),
        e.ports matches Some(p) ==> parse_ports(ports_text(p)) is Ok,
    ensures
        entry_problem((n, e)) is None,
{
}

/// Law: a command that `prox env` accepted keeps every saved environment valid,
/// so what it writes is always read back.
pub proof fn law_env_commands_keep_environments_valid(
    names: Seq<Seq<char>>,
    m: Map<Seq<char>, EnvironmentView>,
    args: Seq<Seq<char>>,
)
    requires
        environments_valid(m),
    ensures
        parse_env_spec(args) matches Ok(request) ==> (env_effect(names, m, request) matches Ok(x)
            ==> environments_valid(x.config)),
{
    lemma_parsed_request_valid(args);
    if let Ok(request) = parse_env_spec(args) {
        if let Ok(x) = env_effect(names, m, request) {
            match request {
                EnvRequest::Add(n) => {
                    lemma_entry_valid(n, unset());
                },
                EnvRequest::Host(n, h) => {
                    assert(entry_problem((n, m[n])) is None);
                    lemma_entry_valid(n, EnvironmentView { host: h, ports: m[n].ports });
                },
                EnvRequest::Ports(n, p) => {
                    assert(entry_problem((n, m[n])) is None);
                    if let Some(q) = p {
                        law_ports_round_trip(q);
                    }
                    lemma_entry_valid(n, EnvironmentView { host: m[n].host, ports: p });
                },
                _ => {},
            }
            assert forall|k: Seq<char>| #[trigger] x.config.contains_key(k) implies entry_problem(
                (k, x.config[k]),
            ) is None by {
                if m.contains_key(k) && request_name(request) != Some(k) {
                    assert(x.config[k] == m[k]);
                }
            }
        }
    }
}

/// Law: an environment made at the prompts (a name, host and port list that
/// passed their checks) keeps every saved environment valid.
pub proof fn law_created_environment_valid(
    m: Map<Seq<char>, EnvironmentView>,
    name: Seq<char>,
    host: Seq<char>,
    value: Seq<char>,
)
    requires
        environments_valid(m),
        is_environment_name(name),
        is_host(host),
        parse_ports(value) is Ok,
    ensures
        environments_valid(
            m.insert(name, EnvironmentView { host: Some(host), ports: Some(parse_ports(value)->Ok_0) }),
        ),
{
    law_parsed_ports_valid(value);
    law_ports_round_trip(parse_ports(value)->Ok_0);
    lemma_entry_valid(name, EnvironmentView { host: Some(host), ports: Some(parse_ports(value)->Ok_0) });
    let m2 = m.insert(name, EnvironmentView { host: Some(host), ports: Some(parse_ports(value)->Ok_0) });
    assert forall|k: Seq<char>| #[trigger] m2.contains_key(k) implies entry_problem((k, m2[k])) is None by {
        if k != name {
            assert(m.contains_key(k));
        }
    }
}

proof fn lemma_no_problem(s: Seq<Entry>)
    requires
        forall|i: int| 0 <= i < s.len() ==> entry_problem(#[trigger] s[i]) is None,
    ensures
        config_problem(s) is None,
    decreases s.len(),
{
    if s.len() > 0 {
        assert(entry_problem(s[0]) is None);
        assert forall|i: int| 0 <= i < s.drop_first().len() implies entry_problem(
            #[trigger] s.drop_first()[i],
        ) is None by {
            assert(s.drop_first()[i] == s[i + 1]);
        }
        lemma_no_problem(s.drop_first());
    }
}

proof fn lemma_problem_free(s: Seq<Entry>)
    requires
        config_problem(s) is None,
    ensures
        forall|i: int| 0 <= i < s.len() ==> entry_problem(#[trigger] s[i]) is None,
    decreases s.len(),
{
    if s.len() > 0 {
        lemma_problem_free(s.drop_first());
        assert forall|i: int| 0 <= i < s.len() implies entry_problem(#[trigger] s[i]) is None by {
            if i > 0 {
                assert(s[i] == s.drop_first()[i - 1]);
            }
        }
    }
}

/// Law: saved environments that pass [`Config::check`] are all valid: every name,
/// host and port list in them is one the command line accepts.
pub proof fn law_checked_environments_valid(config: Config)
    requires
        config.wf(),
        config_problem(config.entries()) is None,
    ensures
        environments_valid(config@),
{
    let s = config.entries();
    lemma_problem_free(s);
    assert forall|k: Seq<char>| #[trigger] config@.contains_key(k) implies entry_problem(
        (k, config@[k]),
    ) is None by {
        let i = choose|i: int| 0 <= i < s.len() && (#[trigger] s[i]).0 == k;
        lemma_entry_map_at(s, i);
        assert(entry_problem(s[i]) is None);
        assert(s[i] == (k, config@[k]));
    }
}

/// Law: saved environments that are all valid pass [`Config::check`].
pub proof fn law_valid_environments_pass_check(config: Config)
    requires
        config.wf(),
        environments_valid(config@),
    ensures
        config_problem(config.entries()) is None,
{
    let s = config.entries();
    assert forall|i: int| 0 <= i < s.len() implies entry_problem(#[trigger] s[i]) is None by {
        lemma_entry_map_at(s, i);
        assert(config@.contains_key(s[i].0));
        assert(s[i] == (s[i].0, config@[s[i].0]));
    }
    lemma_no_problem(s);
}

} // verus!

verus! {

/// Law: a command that changes the saved environments always asks for them to
/// be written, and every command but `list` and `get` asks for a write when it
/// succeeds (setting a value it already had included).
pub proof fn law_changes_are_saved(
    names: Seq<Seq<char>>,
    m: Map<Seq<char>, EnvironmentView>,
    request: EnvRequest,
)
    ensures
        env_effect(names, m, request) matches Ok(x) ==> {
            &&& x.config != m ==> x.save
            &&& x.save == !(request is List || request is Get)
        },
{
}

/// Law: when the flags give both the ports and a valid host, the run uses them,
/// whatever the saved environment (if it exists) and `PROX_HOST` hold.
pub proof fn law_flags_alone_resolve(
    ports: Seq<Port>,
    h: Seq<char>,
    name: Option<Seq<char>>,
    m: Map<Seq<char>, EnvironmentView>,
    fallback_host: Option<Seq<char>>,
)
    requires
        is_host(h),
        name matches Some(n) ==> m.contains_key(n),
    ensures
        resolve_spec(Some(ports), Some(h), name, m, fallback_host) == Ok::<
            (Seq<Port>, Seq<char>),
            Seq<char>,
        >((ports, h)),
{
}

/// Law: with no environment named and no host flag, a valid `PROX_HOST` is the
/// destination of the ports given.
pub proof fn law_fallback_host_resolves(
    ports: Seq<Port>,
    f: Seq<char>,
    m: Map<Seq<char>, EnvironmentView>,
)
    requires
        is_host(f),
    ensures
        resolve_spec(Some(ports), None, None, m, Some(f)) == Ok::<
            (Seq<Port>, Seq<char>),
            Seq<char>,
        >((ports, f)),
{
}

/// Law: a named environment that holds both a valid host and ports runs with them
/// when no flag overrides them.
pub proof fn law_saved_environment_resolves(
    n: Seq<char>,
    m: Map<Seq<char>, EnvironmentView>,
    fallback_host: Option<Seq<char>>,
)
    requires
        m.contains_key(n),
        m[n].host matches Some(h) && is_host(h),
        m[n].ports is Some,
    ensures
        resolve_spec(None, None, Some(n), m, fallback_host) == Ok::<
            (Seq<Port>, Seq<char>),
            Seq<char>,
        >((m[n].ports->0, m[n].host->0)),
{
}

} // verus!
