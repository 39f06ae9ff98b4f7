//! The immutable routing table: serve points grouped by port, duplicate
//! paths rejected at construction, and longest-matching-prefix dispatch.

use vstd::prelude::*;
use vstd::string::*;

use crate::args::ConfigError;
use crate::args::RawServePoint;
use crate::args::ServePoint;
use crate::args::Verbosity;
use crate::text::is_prefix;
use crate::text::str_is_prefix;

verus! {

/// The serve points of one port, in declaration order.
#[derive(Debug)]
pub struct PortTable {
    pub port: u16,
    pub entries: Vec<ServePoint>,
}

/// One `PortTable` per declared port.
#[derive(Debug)]
pub struct RoutingTable {
    pub ports: Vec<PortTable>,
}

/// The mathematical shape of a routing table: each port beside the
/// sequence of entries mounted on it.
pub type Groups = Seq<(u16, Seq<ServePoint>)>;

/// The entry a declaration contributes to its port's group.
pub open spec fn entry_of(r: RawServePoint) -> ServePoint {
    ServePoint { path: r.path, target: r.target }
}

/// The least index of `port` in `g`, or `g.len()` when the port has no
/// group.
pub open spec fn group_index(g: Groups, port: u16) -> int
    decreases g.len(),
{
    if g.len() == 0 {
        0
    } else if g[0].0 == port {
        0
    } else {
        1 + group_index(g.subrange(1, g.len() as int), port)
    }
}

pub proof fn lemma_group_index(g: Groups, port: u16)
    ensures
        0 <= group_index(g, port) <= g.len(),
        group_index(g, port) < g.len() ==> g[group_index(g, port)].0 == port,
        forall|k: int| 0 <= k < group_index(g, port) ==> g[k].0 != port,
    decreases g.len(),
{
    if g.len() > 0 && g[0].0 != port {
        let t = g.subrange(1, g.len() as int);
        lemma_group_index(t, port);
        assert forall|k: int| 0 <= k < group_index(g, port) implies g[k].0 != port by {
            if k > 0 {
                assert(t[k - 1] == g[k]);
            }
        }
    }
}

/// `group_index` is the one index its characterisation allows.
pub proof fn lemma_group_index_is(g: Groups, port: u16, i: int)
    requires
        0 <= i <= g.len(),
        forall|k: int| 0 <= k < i ==> g[k].0 != port,
        i < g.len() ==> g[i].0 == port,
    ensures
        group_index(g, port) == i,
    decreases i,
{
    if i == 0 {
    } else {
        let t = g.subrange(1, g.len() as int);
        assert(g[0].0 != port);
        assert forall|k: int| 0 <= k < i - 1 implies t[k].0 != port by {
            assert(t[k] == g[k + 1]);
        }
        assert(i - 1 < t.len() ==> t[i - 1].0 == port);
        lemma_group_index_is(t, port, i - 1);
    }
}

/// `specs` declares the same path twice on one port.
pub open spec fn has_dup(specs: Seq<RawServePoint>) -> bool {
    exists|i: int, j: int|
        0 <= i < j < specs.len() && specs[i].port == specs[j].port && specs[i].path@
            == specs[j].path@
}

/// Grouping by port: each declaration is appended to its port's group, in
/// declaration order, new ports at the end.
pub open spec fn spec_group(specs: Seq<RawServePoint>) -> Groups
    decreases specs.len(),
{
    if specs.len() == 0 {
        Seq::empty()
    } else {
        spec_insert(spec_group(specs.drop_last()), specs.last().port, entry_of(specs.last()))
    }
}

/// One declaration appended to its port's group.
pub open spec fn spec_insert(g: Groups, port: u16, sp: ServePoint) -> Groups {
    let i = group_index(g, port);
    if i < g.len() {
        g.update(i, (port, g[i].1.push(sp)))
    } else {
        g.push((port, seq![sp]))
    }
}

impl PortTable {
    /// At least one entry, and no path twice.
    pub open spec fn wf(self) -> bool {
        &&& self.entries@.len() > 0
        &&& forall|a: int, b: int|
            0 <= a < b < self.entries@.len() ==> self.entries@[a].path@ != self.entries@[b].path@
    }
}

impl RoutingTable {
    /// What the table holds, port by port.
    pub open spec fn model(self) -> Groups {
        self.ports@.map_values(|pt: PortTable| (pt.port, pt.entries@))
    }

    /// No port twice, and each port's group well formed.
    pub open spec fn wf(self) -> bool {
        &&& forall|i: int, j: int|
            0 <= i < j < self.ports@.len() ==> self.ports@[i].port != self.ports@[j].port
        &&& forall|i: int| 0 <= i < self.ports@.len() ==> self.ports@[i].wf()
    }

    /// The group of entries mounted on `port`, if the port was declared.
    pub open spec fn group_of(self, port: u16) -> Option<Seq<ServePoint>> {
        let i = group_index(self.model(), port);
        if i < self.model().len() {
            Some(self.model()[i].1)
        } else {
            None
        }
    }

    fn find_port(&self, port: u16) -> (r: usize)
        ensures
            r == group_index(self.model(), port),
    {
        let n: usize = self.ports.len();
        let mut i: usize = 0;
        while i < n
            invariant
                i <= n,
                n == self.ports@.len(),
                forall|k: int| 0 <= k < i ==> self.ports@[k].port != port,
            decreases n - i,
        {
            if self.ports[i].port == port {
                proof {
                    lemma_group_index_is(self.model(), port, i as int);
                }
                return i;
            }
            i = i + 1;
        }
        proof {
            lemma_group_index_is(self.model(), port, n as int);
        }
        n
    }

    /// The entry that serves `req_path` on `port`: of the entries whose
    /// path prefixes the request path, the one with the longest, or `None`
    /// when no entry matches or the port was never declared.
    pub fn dispatch<'a>(&'a self, port: u16, req_path: &str) -> (r: Option<&'a ServePoint>)
        ensures
            match r {
                Some(sp) => {
                    &&& self.group_of(port) matches Some(g) && {
                        &&& exists|i: int| 0 <= i < g.len() && g[i] == *sp
                        &&& is_prefix(sp.path@, req_path@)
                        &&& forall|i: int|
                            0 <= i < g.len() && is_prefix(g[i].path@, req_path@) ==> g[i].path@.len()
                                <= sp.path@.len()
                    }
                },
                None => match self.group_of(port) {
                    Some(g) => forall|i: int|
                        0 <= i < g.len() ==> !is_prefix(g[i].path@, req_path@),
                    None => true,
                },
            },
    {
        let gi = self.find_port(port);
        proof {
            lemma_group_index(self.model(), port);
        }
        if gi == self.ports.len() {
            return None;
        }
        let entries = &self.ports[gi].entries;
        let ghost g = self.group_of(port).unwrap();
        assert(g == entries@);
        let n: usize = entries.len();
        let mut best: usize = n;
        let mut best_len: usize = 0;
        let mut i: usize = 0;
        while i < n
            invariant
                i <= n,
                n == entries@.len(),
                g == entries@,
                best <= n,
                best < n ==> {
                    &&& is_prefix(g[best as int].path@, req_path@)
                    &&& best_len == g[best as int].path@.len()
                },
                forall|k: int|
                    0 <= k < i && is_prefix(g[k].path@, req_path@) ==> {
                        &&& best < n
                        &&& g[k].path@.len() <= best_len
                    },
            decreases n - i,
        {
            let e = &entries[i];
            if str_is_prefix(e.path.as_str(), req_path) {
                let l: usize = e.path.as_str().unicode_len();
                if best == n || l > best_len {
                    best = i;
                    best_len = l;
                }
            }
            i = i + 1;
        }
        if best == n {
            None
        } else {
            Some(&entries[best])
        }
    }
}

/// Some entry of `g` mounts `path` on `port`.
pub open spec fn tables_has(g: Seq<PortTable>, port: u16, path: Seq<char>) -> bool {
    exists|i: int, j: int|
        0 <= i < g.len() && 0 <= j < g[i].entries@.len() && g[i].port == port
            && g[i].entries@[j].path@ == path
}

/// Some declaration of `s` mounts `path` on `port`.
pub open spec fn specs_has(s: Seq<RawServePoint>, port: u16, path: Seq<char>) -> bool {
    exists|k: int| 0 <= k < s.len() && s[k].port == port && s[k].path@ == path
}

/// The table and the declarations mount the same (port, path) pairs.
pub open spec fn has_correspondence(t: Seq<PortTable>, s: Seq<RawServePoint>) -> bool {
    forall|port: u16, path: Seq<char>|
        #![trigger tables_has(t, port, path)]
        #![trigger specs_has(s, port, path)]
        tables_has(t, port, path) <==> specs_has(s, port, path)
}

proof fn lemma_has_after_insert(
    t0: Seq<PortTable>,
    t1: Seq<PortTable>,
    gi: int,
    s0: Seq<RawServePoint>,
    s1: Seq<RawServePoint>,
    rsp: RawServePoint,
)
    requires
        0 <= gi < t0.len(),
        t1.len() == t0.len(),
        forall|i: int| 0 <= i < t0.len() && i != gi ==> t1[i] == t0[i],
        t0[gi].port == rsp.port,
        t1[gi].port == rsp.port,
        t1[gi].entries@ == t0[gi].entries@.push(entry_of(rsp)),
        s1 == s0.push(rsp),
        has_correspondence(t0, s0),
    ensures
        has_correspondence(t1, s1),
{
    assert forall|port: u16, path: Seq<char>|
        #![trigger tables_has(t1, port, path)]
        #![trigger specs_has(s1, port, path)]
        tables_has(t1, port, path) <==> specs_has(s1, port, path) by {
        if tables_has(t1, port, path) {
            let (i, j) = choose|i: int, j: int|
                0 <= i < t1.len() && 0 <= j < t1[i].entries@.len() && t1[i].port == port
                    && t1[i].entries@[j].path@ == path;
            if i == gi && j == t0[gi].entries@.len() {
                assert(t1[gi].entries@[j] == entry_of(rsp));
                assert(s1[s1.len() - 1] == rsp);
                assert(specs_has(s1, port, path));
            } else {
                assert(t0[i].entries@[j].path@ == path);
                assert(t0[i].port == port);
                assert(tables_has(t0, port, path));
                assert(specs_has(s0, port, path));
                let k = choose|k: int| 0 <= k < s0.len() && s0[k].port == port && s0[k].path@ == path;
                assert(s1[k] == s0[k]);
                assert(specs_has(s1, port, path));
            }
        }
        if specs_has(s1, port, path) {
            let k = choose|k: int| 0 <= k < s1.len() && s1[k].port == port && s1[k].path@ == path;
            if k == s0.len() {
                assert(s1[k] == rsp);
                assert(t1[gi].entries@[t0[gi].entries@.len() as int] == entry_of(rsp));
                assert(tables_has(t1, port, path));
            } else {
                assert(s0[k] == s1[k]);
                assert(specs_has(s0, port, path));
                assert(tables_has(t0, port, path));
                let (i, j) = choose|i: int, j: int|
                    0 <= i < t0.len() && 0 <= j < t0[i].entries@.len() && t0[i].port == port
                        && t0[i].entries@[j].path@ == path;
                if i == gi {
                    assert(t1[gi].entries@[j] == t0[gi].entries@[j]);
                } else {
                    assert(t1[i] == t0[i]);
                }
                assert(tables_has(t1, port, path));
            }
        }
    }
}

proof fn lemma_has_after_new_group(
    t0: Seq<PortTable>,
    t1: Seq<PortTable>,
    pt1: PortTable,
    s0: Seq<RawServePoint>,
    s1: Seq<RawServePoint>,
    rsp: RawServePoint,
)
    requires
        t1 == t0.push(pt1),
        pt1.port == rsp.port,
        pt1.entries@ == seq![entry_of(rsp)],
        s1 == s0.push(rsp),
        has_correspondence(t0, s0),
    ensures
        has_correspondence(t1, s1),
{
    assert forall|port: u16, path: Seq<char>|
        #![trigger tables_has(t1, port, path)]
        #![trigger specs_has(s1, port, path)]
        tables_has(t1, port, path) <==> specs_has(s1, port, path) by {
        if tables_has(t1, port, path) {
            let (i, j) = choose|i: int, j: int|
                0 <= i < t1.len() && 0 <= j < t1[i].entries@.len() && t1[i].port == port
                    && t1[i].entries@[j].path@ == path;
            if i == t0.len() {
                assert(t1[i] == pt1);
                assert(pt1.entries@[j] == entry_of(rsp));
                assert(s1[s1.len() - 1] == rsp);
                assert(specs_has(s1, port, path));
            } else {
                assert(t1[i] == t0[i]);
                assert(tables_has(t0, port, path));
                assert(specs_has(s0, port, path));
                let k = choose|k: int| 0 <= k < s0.len() && s0[k].port == port && s0[k].path@ == path;
                assert(s1[k] == s0[k]);
                assert(specs_has(s1, port, path));
            }
        }
        if specs_has(s1, port, path) {
            let k = choose|k: int| 0 <= k < s1.len() && s1[k].port == port && s1[k].path@ == path;
            if k == s0.len() {
                assert(s1[k] == rsp);
                assert(t1[t0.len() as int] == pt1);
                assert(pt1.entries@[0].path@ == path);
                assert(tables_has(t1, port, path));
            } else {
                assert(s0[k] == s1[k]);
                assert(specs_has(s0, port, path));
                assert(tables_has(t0, port, path));
                let (i, j) = choose|i: int, j: int|
                    0 <= i < t0.len() && 0 <= j < t0[i].entries@.len() && t0[i].port == port
                        && t0[i].entries@[j].path@ == path;
                assert(t1[i] == t0[i]);
                assert(tables_has(t1, port, path));
            }
        }
    }
}

proof fn lemma_no_dup_step(s: Seq<RawServePoint>, idx: int)
    requires
        0 <= idx < s.len(),
        !has_dup(s.take(idx)),
        !specs_has(s.take(idx), s[idx].port, s[idx].path@),
    ensures
        !has_dup(s.take(idx + 1)),
{
    let s1 = s.take(idx + 1);
    assert forall|i: int, j: int|
        0 <= i < j < s1.len() implies !(s1[i].port == s1[j].port && s1[i].path@
        == s1[j].path@) by {
        if j < idx {
            assert(s.take(idx)[i] == s1[i]);
            assert(s.take(idx)[j] == s1[j]);
            assert(!has_dup(s.take(idx)));
            if s1[i].port == s1[j].port && s1[i].path@ == s1[j].path@ {
                assert(has_dup(s.take(idx)));
            }
        } else {
            assert(j == idx);
            assert(s1[j] == s[idx]);
            assert(s.take(idx)[i] == s1[i]);
            if s1[i].port == s1[j].port && s1[i].path@ == s1[j].path@ {
                assert(specs_has(s.take(idx), s[idx].port, s[idx].path@));
            }
        }
    }
}

/// Groups the declarations by port, in declaration order, and rejects a
/// path declared twice on one port; the resulting table mounts exactly
/// the declared (port, path) pairs.
pub fn build_table(specs: &Vec<RawServePoint>) -> (r: Result<RoutingTable, ConfigError>)
    ensures
        r is Ok <==> !has_dup(specs@),
        r matches Ok(t) ==> t.wf() && t.model() == spec_group(specs@) && has_correspondence(
            t.ports@,
            specs@,
        ),
        r matches Err(e) ==> e matches ConfigError::DuplicatePath(p, eport) && (exists|
            i: int,
            j: int,
        |
            0 <= i < j < specs@.len() && specs@[i].port == eport && specs@[i].path@ == p@
                && specs@[j].port == eport && specs@[j].path@ == p@),
{
    let n: usize = specs.len();
    let mut t = RoutingTable { ports: Vec::new() };
    let mut idx: usize = 0;
    proof {
        assert(specs@.take(0) =~= Seq::<RawServePoint>::empty());
        assert(t.model() =~= spec_group(specs@.take(0)));
    }
    while idx < n
        invariant
            idx <= n,
            n == specs@.len(),
            t.wf(),
            t.model() == spec_group(specs@.take(idx as int)),
            !has_dup(specs@.take(idx as int)),
            has_correspondence(t.ports@, specs@.take(idx as int)),
        decreases n - idx,
    {
        let spref = &specs[idx];
        let sp = spref.clone();
        let ghost rsp = specs@[idx as int];
        let (port, spoint) = sp.decompose();
        proof {
            assert(spoint == entry_of(rsp));
            assert(port == rsp.port);
        }
        let gi = t.find_port(port);
        let ghost g0 = t.model();
        let ghost t0 = t.ports@;
        let ghost s0 = specs@.take(idx as int);
        let ghost s1 = specs@.take(idx as int + 1);
        proof {
            lemma_group_index(g0, port);
            assert(s1.drop_last() =~= s0);
            assert(s1.last() == rsp);
            assert(s1 =~= s0.push(rsp));
        }
        if gi < t.ports.len() {
            assert(t.ports@[gi as int].port == port);
            let pt = &t.ports[gi];
            let m: usize = pt.entries.len();
            let mut e: usize = 0;
            while e < m
                invariant
                    e <= m,
                    m == pt.entries@.len(),
                    0 <= gi < t0.len(),
                    pt.entries@ == t0[gi as int].entries@,
                    t0[gi as int].port == port,
                    rsp.path@ == spoint.path@,
                    rsp.port == port,
                    rsp == specs@[idx as int],
                    0 <= idx < specs@.len(),
                    s0 == specs@.take(idx as int),
                    has_correspondence(t0, s0),
                    forall|k: int| 0 <= k < e ==> pt.entries@[k].path@ != spoint.path@,
                decreases m - e,
            {
                if pt.entries[e].path == spoint.path {
                    proof {
                        assert(t0[gi as int].entries@[e as int].path@ == spoint.path@);
                        assert(tables_has(t0, port, spoint.path@));
                        assert(specs_has(s0, port, spoint.path@));
                        let k = choose|k: int|
                            0 <= k < s0.len() && s0[k].port == port && s0[k].path@ == spoint.path@;
                        assert(s0[k] == specs@[k]);
                        assert(rsp.path@ == spoint.path@);
                        assert(0 <= k < idx as int && specs@[k].port == port && specs@[k].path@
                            == spoint.path@ && specs@[idx as int].port == port
                            && specs@[idx as int].path@ == spoint.path@);
                        assert(has_dup(specs@));
                    }
                    return Err(ConfigError::DuplicatePath(spoint.path, port));
                }
                e = e + 1;
            }
            proof {
                assert forall|k: int|
                    0 <= k < t0[gi as int].entries@.len() implies t0[gi as int].entries@[k].path@
                    != spoint.path@ by {}
            }
            let mut ptown = t.ports.remove(gi);
            ptown.entries.push(spoint);
            t.ports.insert(gi, ptown);
            proof {
                let t1 = t.ports@;
                assert forall|i: int| 0 <= i < t0.len() && i != gi implies t1[i] == t0[i] by {
                    if i < gi {
                        assert(t0.remove(gi as int)[i] == t0[i]);
                    } else {
                        assert(t0.remove(gi as int)[i - 1] == t0[i]);
                    }
                }
                assert(t1[gi as int].port == rsp.port);
                assert(t1[gi as int].entries@ == t0[gi as int].entries@.push(entry_of(rsp)));
                // the new model is exactly spec_insert on the old one
                assert(t.model() =~= spec_insert(g0, port, spoint));
                assert(spec_group(s1) == spec_insert(spec_group(s0), port, spoint));
                // well-formedness is preserved
                assert forall|i: int, j: int|
                    0 <= i < j < t1.len() implies t1[i].port != t1[j].port by {}
                assert forall|i: int| 0 <= i < t1.len() implies t1[i].wf() by {
                    if i == gi {
                        let es = t1[gi as int].entries@;
                        assert forall|a: int, b: int|
                            0 <= a < b < es.len() implies es[a].path@ != es[b].path@ by {
                            if b == es.len() - 1 {
                                assert(es[a] == t0[gi as int].entries@[a]);
                            } else {
                                assert(es[a] == t0[gi as int].entries@[a]);
                                assert(es[b] == t0[gi as int].entries@[b]);
                            }
                        }
                    }
                }
                lemma_has_after_insert(t0, t1, gi as int, s0, s1, rsp);
                assert(!specs_has(s0, port, spoint.path@)) by {
                    if specs_has(s0, port, spoint.path@) {
                        assert(tables_has(t0, port, spoint.path@));
                        let (i, j) = choose|i: int, j: int|
                            0 <= i < t0.len() && 0 <= j < t0[i].entries@.len() && t0[i].port == port
                                && t0[i].entries@[j].path@ == spoint.path@;
                        assert(i == gi) by {
                            if i < gi {
                                assert(t0[i].port != t0[gi as int].port);
                            } else if i > gi {
                                assert(t0[gi as int].port != t0[i].port);
                            }
                        }
                    }
                }
                lemma_no_dup_step(specs@, idx as int);
            }
        } else {
            assert(gi == t.ports.len());
            let mut entries: Vec<ServePoint> = Vec::new();
            entries.push(spoint);
            let ptnew = PortTable { port, entries };
            t.ports.push(ptnew);
            proof {
                let t1 = t.ports@;
                assert(t1 == t0.push(ptnew));
                assert(ptnew.entries@ =~= seq![entry_of(rsp)]);
                assert(t.model() =~= spec_insert(g0, port, spoint));
                assert(spec_group(s1) == spec_insert(spec_group(s0), port, spoint));
                assert forall|i: int, j: int|
                    0 <= i < j < t1.len() implies t1[i].port != t1[j].port by {
                    if j == t1.len() - 1 {
                        assert(g0[i].0 == t0[i].port);
                    }
                }
                assert forall|i: int| 0 <= i < t1.len() implies t1[i].wf() by {
                    if i < t0.len() {
                        assert(t1[i] == t0[i]);
                    }
                }
                lemma_has_after_new_group(t0, t1, ptnew, s0, s1, rsp);
                assert(!specs_has(s0, port, spoint.path@)) by {
                    if specs_has(s0, port, spoint.path@) {
                        assert(tables_has(t0, port, spoint.path@));
                        let (i, j) = choose|i: int, j: int|
                            0 <= i < t0.len() && 0 <= j < t0[i].entries@.len() && t0[i].port == port
                                && t0[i].entries@[j].path@ == spoint.path@;
                        assert(g0[i].0 == port);
                    }
                }
                lemma_no_dup_step(specs@, idx as int);
            }
        }
        idx = idx + 1;
    }
    proof {
        assert(specs@.take(n as int) =~= specs@);
    }
    Ok(t)
}

/// The validated configuration: the CORS toggle, the logging level, and
/// the routing table built from the declarations.
pub struct Args {
    pub cors: bool,
    pub verbosity: Verbosity,
    pub serve_points: RoutingTable,
}

impl Args {
    /// Validates the declarations into a configuration, as `build_table`
    /// says; the toggle and level are carried through unchanged.
    pub fn build(serve: Vec<RawServePoint>, cors: bool, verbosity: Verbosity) -> (r: Result<
        Args,
        ConfigError,
    >)
        ensures
            r is Ok <==> !has_dup(serve@),
            r matches Ok(a) ==> a.cors == cors && a.verbosity == verbosity && a.serve_points.wf()
                && a.serve_points.model() == spec_group(serve@),
            r matches Err(e) ==> e matches ConfigError::DuplicatePath(p, eport) && (exists|
                i: int,
                j: int,
            |
                0 <= i < j < serve@.len() && serve@[i].port == eport && serve@[i].path@ == p@
                    && serve@[j].port == eport && serve@[j].path@ == p@),
    {
        match build_table(&serve) {
            Ok(t) => Ok(Args { cors, verbosity, serve_points: t }),
            Err(e) => Err(e),
        }
    }
}

/// Longest-prefix dispatch does not depend on declaration order: within a
/// group with no repeated path, at most one entry is a longest matching
/// prefix of a request path, so which entry wins is fixed by the set of
/// entries alone.
pub proof fn lemma_longest_match_unique(g: Seq<ServePoint>, req: Seq<char>, i: int, j: int)
    requires
        forall|a: int, b: int| 0 <= a < b < g.len() ==> g[a].path@ != g[b].path@,
        0 <= i < g.len(),
        0 <= j < g.len(),
        is_prefix(g[i].path@, req),
        is_prefix(g[j].path@, req),
        forall|k: int|
            0 <= k < g.len() && is_prefix(g[k].path@, req) ==> g[k].path@.len() <= g[i].path@.len(),
        forall|k: int|
            0 <= k < g.len() && is_prefix(g[k].path@, req) ==> g[k].path@.len() <= g[j].path@.len(),
    ensures
        i == j,
{
    assert(g[i].path@.len() == g[j].path@.len());
    assert(g[i].path@ == req.subrange(0, g[i].path@.len() as int));
    assert(g[j].path@ == req.subrange(0, g[j].path@.len() as int));
    if i < j {
        assert(g[i].path@ != g[j].path@);
    } else if j < i {
        assert(g[j].path@ != g[i].path@);
    }
}

} // verus!
