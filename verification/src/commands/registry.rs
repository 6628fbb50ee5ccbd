//! The registry of scanner commands, keyed by command id: what a workflow
//! step may run.
use vstd::prelude::*;
use crate::config::{opt_view, AppConfig, ToolCapability};
use crate::text::{chars_eq, chars_of, eq_str, owned};

verus! {

/// The (id, description) views of registry entries.
pub open spec fn entry_views(v: Seq<(String, String)>) -> Seq<(Seq<char>, Seq<char>)> {
    v.map_values(|e: (String, String)| (e.0@, e.1@))
}

/// No id occurs twice.
pub open spec fn ids_distinct(es: Seq<(Seq<char>, Seq<char>)>) -> bool {
    forall|a: int, b: int| 0 <= a < b < es.len() ==> (#[trigger] es[a]).0 != (#[trigger] es[b]).0
}

/// The position of the entry with id `id`, if any.
pub open spec fn index_of_id(es: Seq<(Seq<char>, Seq<char>)>, id: Seq<char>) -> Option<int> {
    if exists|k: int| 0 <= k < es.len() && (#[trigger] es[k]).0 == id {
        Some(choose|k: int| 0 <= k < es.len() && (#[trigger] es[k]).0 == id)
    } else {
        None
    }
}

/// The entries after registering `id` with `description`: an entry with
/// that id gets the new description in its place; otherwise the entry is
/// added last.
pub open spec fn registered(es: Seq<(Seq<char>, Seq<char>)>, id: Seq<char>, description: Seq<char>) -> Seq<
    (Seq<char>, Seq<char>),
> {
    match index_of_id(es, id) {
        Some(k) => es.update(k, (id, description)),
        None => es.push((id, description)),
    }
}

/// The description a factory-registered command is listed with.
pub open spec fn factory_description() -> Seq<char> {
    "factory-registered"@
}

/// The commands that can be run, each under its id with its description,
/// in the order they were first registered.
#[derive(Debug, Clone)]
pub struct CommandRegistry {
    entries: Vec<(String, String)>,
}

impl CommandRegistry {
    /// The (id, description) entries, in registration order.
    pub closed spec fn entries(&self) -> Seq<(Seq<char>, Seq<char>)> {
        entry_views(self.entries@)
    }

    /// No id is registered twice.
    pub closed spec fn wf(&self) -> bool {
        ids_distinct(self.entries())
    }

    /// A registry with no command.
    pub fn new() -> (res: Self)
        ensures
            res.wf(),
            res.entries() == Seq::<(Seq<char>, Seq<char>)>::empty(),
    {
        let r = CommandRegistry { entries: Vec::new() };
        assert(r.entries() =~= Seq::<(Seq<char>, Seq<char>)>::empty());
        r
    }

    fn position(&self, id: &str) -> (res: Option<usize>)
        requires
            self.wf(),
        ensures
            match res {
                Some(k) => index_of_id(self.entries(), id@) == Some(k as int),
                None => index_of_id(self.entries(), id@) is None,
            },
    {
        let idc = chars_of(id);
        let mut k: usize = 0;
        while k < self.entries.len()
            invariant
                k <= self.entries@.len(),
                idc@ == id@,
                self.wf(),
                forall|m: int| 0 <= m < k ==> (#[trigger] self.entries@[m]).0@ != id@,
            decreases self.entries@.len() - k,
        {
            let c = chars_of(self.entries[k].0.as_str());
            if chars_eq(c.as_slice(), idc.as_slice()) {
                proof {
                    let es = self.entries();
                    assert(es[k as int].0 == id@);
                    let j = choose|j: int| 0 <= j < es.len() && (#[trigger] es[j]).0 == id@;
                    if j != k as int {
                        if j < k {
                            assert(self.entries@[j].0@ == es[j].0);
                        } else {
                            assert(es[k as int].0 != es[j].0);
                        }
                    }
                }
                return Some(k);
            }
            k = k + 1;
        }
        proof {
            let es = self.entries();
            if exists|j: int| 0 <= j < es.len() && (#[trigger] es[j]).0 == id@ {
                let j = choose|j: int| 0 <= j < es.len() && (#[trigger] es[j]).0 == id@;
                assert(self.entries@[j].0@ == es[j].0);
            }
        }
        None
    }

    /// Registers a command under `id` with its description; a command
    /// already under that id is replaced, in its place.
    pub fn register(self, id: &str, description: &str) -> (res: Self)
        requires
            self.wf(),
        ensures
            res.wf(),
            res.entries() == registered(self.entries(), id@, description@),
    {
        let ghost es = self.entries();
        let pos = self.position(id);
        let mut entries = self.entries;
        match pos {
            Some(k) => {
                entries.set(k, (owned(id), owned(description)));
                let r = CommandRegistry { entries };
                proof {
                    assert(r.entries() =~= es.update(k as int, (id@, description@)));
                    assert forall|a: int, b: int| 0 <= a < b < r.entries().len() implies (#[trigger] r.entries()[a]).0
                        != (#[trigger] r.entries()[b]).0 by {
                        assert(es[a].0 != es[b].0);
                        assert(es[k as int].0 == id@);
                    }
                }
                r
            },
            None => {
                entries.push((owned(id), owned(description)));
                let r = CommandRegistry { entries };
                proof {
                    assert(r.entries() =~= es.push((id@, description@)));
                    assert forall|a: int, b: int| 0 <= a < b < r.entries().len() implies (#[trigger] r.entries()[a]).0
                        != (#[trigger] r.entries()[b]).0 by {
                        if b == es.len() {
                            assert(r.entries()[a] == es[a]);
                            assert(es[a].0 != id@);
                        } else {
                            assert(es[a].0 != es[b].0);
                        }
                    }
                }
                r
            },
        }
    }

    /// Registers a command made afresh by a factory for each use; it is
    /// listed as factory-registered.
    pub fn register_factory(self, id: &str) -> (res: Self)
        requires
            self.wf(),
        ensures
            res.wf(),
            res.entries() == registered(self.entries(), id@, factory_description()),
    {
        proof {
            reveal_strlit("factory-registered");
        }
        self.register(id, "factory-registered")
    }

    /// The description of the command under `id`, if one is registered.
    pub fn get(&self, id: &str) -> (res: Option<String>)
        requires
            self.wf(),
        ensures
            match index_of_id(self.entries(), id@) {
                Some(k) => res matches Some(d) && d@ == self.entries()[k].1,
                None => res is None,
            },
    {
        match self.position(id) {
            Some(k) => Some(owned(self.entries[k].1.as_str())),
            None => None,
        }
    }

    /// The registered commands as (id, description) pairs, in registration
    /// order.
    pub fn list_commands(&self) -> (res: Vec<(String, String)>)
        ensures
            entry_views(res@) == self.entries(),
    {
        let mut out: Vec<(String, String)> = Vec::new();
        let mut i: usize = 0;
        while i < self.entries.len()
            invariant
                i <= self.entries@.len(),
                entry_views(out@) == self.entries().take(i as int),
            decreases self.entries@.len() - i,
        {
            let e = &self.entries[i];
            out.push((owned(e.0.as_str()), owned(e.1.as_str())));
            proof {
                assert(self.entries().take(i + 1) =~= self.entries().take(i as int).push(self.entries()[i as int]));
                assert(entry_views(out@) =~= self.entries().take(i + 1));
            }
            i = i + 1;
        }
        assert(self.entries().take(i as int) =~= self.entries());
        out
    }

    /// The registered ids, in registration order.
    pub fn ids(&self) -> (res: Vec<String>)
        ensures
            crate::text::views(res@) == self.entries().map_values(|e: (Seq<char>, Seq<char>)| e.0),
    {
        let mut out: Vec<String> = Vec::new();
        let mut i: usize = 0;
        while i < self.entries.len()
            invariant
                i <= self.entries@.len(),
                crate::text::views(out@) == self.entries().take(i as int).map_values(
                    |e: (Seq<char>, Seq<char>)| e.0,
                ),
            decreases self.entries@.len() - i,
        {
            let ghost before = out@;
            out.push(owned(self.entries[i].0.as_str()));
            proof {
                assert(crate::text::views(out@) =~= crate::text::views(before).push(self.entries()[i as int].0));
                assert(self.entries().take(i + 1) =~= self.entries().take(i as int).push(self.entries()[i as int]));
                assert(crate::text::views(out@) =~= self.entries().take(i + 1).map_values(
                    |e: (Seq<char>, Seq<char>)| e.0,
                ));
            }
            i = i + 1;
        }
        assert(self.entries().take(i as int) =~= self.entries());
        out
    }
}

/// Registering keeps every other command and puts the new one under its id:
/// afterwards `id` is found with `description`, and every other id is found
/// with the description it had.
pub proof fn law_register_then_get(es: Seq<(Seq<char>, Seq<char>)>, id: Seq<char>, description: Seq<char>, other: Seq<char>)
    requires
        ids_distinct(es),
        other != id,
    ensures
        index_of_id(registered(es, id, description), id) matches Some(k) && registered(es, id, description)[k].1
            == description,
        match index_of_id(es, other) {
            Some(j) => index_of_id(registered(es, id, description), other) matches Some(m)
                && registered(es, id, description)[m].1 == es[j].1,
            None => index_of_id(registered(es, id, description), other) is None,
        },
{
    let r = registered(es, id, description);
    match index_of_id(es, id) {
        Some(k) => {
            assert(r[k].0 == id);
            let k2 = choose|x: int| 0 <= x < r.len() && (#[trigger] r[x]).0 == id;
            if k2 != k {
                assert(r[k2] == es[k2]);
                assert(es[k2].0 != es[k].0 || k2 == k);
            }
        },
        None => {
            assert(r[es.len() as int].0 == id);
            let k2 = choose|x: int| 0 <= x < r.len() && (#[trigger] r[x]).0 == id;
            if k2 < es.len() {
                assert(r[k2] == es[k2]);
            }
        },
    }
    match index_of_id(es, other) {
        Some(j) => {
            assert(r[j] == es[j]);
            let m = choose|x: int| 0 <= x < r.len() && (#[trigger] r[x]).0 == other;
            if m < es.len() {
                assert(r[m] == es[m] || r[m].0 == id);
                if m != j {
                    assert(es[m].0 != es[j].0);
                }
            }
        },
        None => {
            if exists|x: int| 0 <= x < r.len() && (#[trigger] r[x]).0 == other {
                let m = choose|x: int| 0 <= x < r.len() && (#[trigger] r[x]).0 == other;
                if m < es.len() {
                    assert(r[m] == es[m] || r[m].0 == id);
                }
            }
        },
    }
}

/// Every listed command is found under its id, with its description, and
/// an id that is not listed is not found.
pub proof fn law_list_agrees_with_get(es: Seq<(Seq<char>, Seq<char>)>, id: Seq<char>)
    requires
        ids_distinct(es),
    ensures
        forall|k: int| 0 <= k < es.len() ==> index_of_id(es, (#[trigger] es[k]).0) == Some(k),
        (forall|k: int| 0 <= k < es.len() ==> (#[trigger] es[k]).0 != id) ==> index_of_id(es, id) is None,
{
    assert forall|k: int| 0 <= k < es.len() implies index_of_id(es, (#[trigger] es[k]).0) == Some(k) by {
        let id_k = es[k].0;
        assert(es[k].0 == id_k);
        let j = choose|j: int| 0 <= j < es.len() && (#[trigger] es[j]).0 == id_k;
        if j < k {
            assert(es[j].0 != es[k].0);
        } else if j > k {
            assert(es[k].0 != es[j].0);
        }
    }
}

/// Registering an id that is not yet registered adds it last.
proof fn lemma_register_new(es: Seq<(Seq<char>, Seq<char>)>, id: Seq<char>, description: Seq<char>)
    requires
        forall|k: int| 0 <= k < es.len() ==> (#[trigger] es[k]).0 != id,
    ensures
        registered(es, id, description) == es.push((id, description)),
{
}

/// The path of the first capability of tool `id`, if it has one.
pub open spec fn capability_path(caps: Seq<ToolCapability>, id: Seq<char>) -> Option<Seq<char>>
    decreases caps.len(),
{
    if caps.len() == 0 {
        None
    } else if caps[0].tool_id@ == id {
        opt_view(caps[0].path)
    } else {
        capability_path(caps.drop_first(), id)
    }
}

fn capability_path_exec(caps: &Vec<ToolCapability>, id: &str) -> (res: Option<String>)
    ensures
        opt_view(res) == capability_path(caps@, id@),
{
    let ghost cv = caps@;
    assert(cv.skip(0) =~= cv);
    let mut i: usize = 0;
    while i < caps.len()
        invariant
            i <= cv.len(),
            cv == caps@,
            capability_path(cv, id@) == capability_path(cv.skip(i as int), id@),
        decreases cv.len() - i,
    {
        proof {
            assert(cv.skip(i as int)[0] == cv[i as int]);
            assert(cv.skip(i as int).drop_first() =~= cv.skip(i + 1));
        }
        let c = &caps[i];
        if eq_str(chars_of(c.tool_id.as_str()).as_slice(), id) {
            return match &c.path {
                Some(p) => Some(owned(p.as_str())),
                None => None,
            };
        }
        i = i + 1;
    }
    None
}

/// The commands a server registers for its configuration, in order: ping
/// and the built-in port scan always; nmap when a binary is configured;
/// httpx and nuclei when their capability has a path.
pub open spec fn registry_entries(c: AppConfig) -> Seq<(Seq<char>, Seq<char>)> {
    let base = seq![("ping"@, "ICMP Ping 连通性测试"@), ("builtin_port_scan"@, "Builtin TCP Port Scanner"@)];
    let a = if c.nmap_binary is Some {
        base.push(("nmap"@, "Nmap Port Scanner"@))
    } else {
        base
    };
    let b = if capability_path(c.tool_capabilities@, "httpx"@) is Some {
        a.push(("httpx"@, "HTTPX Fingerprint Scanner"@))
    } else {
        a
    };
    if capability_path(c.tool_capabilities@, "nuclei"@) is Some {
        b.push(("nuclei"@, "Nuclei POC Scanner (Builtin HTTP Engine)"@))
    } else {
        b
    }
}

/// The registry of a server with this configuration.
pub fn registry_for(config: &AppConfig) -> (res: CommandRegistry)
    ensures
        res.wf(),
        res.entries() == registry_entries(*config),
{
    proof {
        reveal_strlit("ping");
        reveal_strlit("builtin_port_scan");
        reveal_strlit("nmap");
        reveal_strlit("httpx");
        reveal_strlit("nuclei");
        assert("ping"@.len() == 4 && "builtin_port_scan"@.len() == 17 && "nmap"@.len() == 4 && "httpx"@.len() == 5
            && "nuclei"@.len() == 6);
        assert("ping"@[0] != "nmap"@[0]);
    }
    let ghost e0 = Seq::<(Seq<char>, Seq<char>)>::empty();
    let r = CommandRegistry::new();
    proof {
        lemma_register_new(e0, "ping"@, "ICMP Ping 连通性测试"@);
    }
    let r = r.register("ping", "ICMP Ping 连通性测试");
    let ghost e1 = r.entries();
    proof {
        assert(e1 =~= seq![("ping"@, "ICMP Ping 连通性测试"@)]);
        lemma_register_new(e1, "builtin_port_scan"@, "Builtin TCP Port Scanner"@);
    }
    let mut r = r.register("builtin_port_scan", "Builtin TCP Port Scanner");
    let ghost base = r.entries();
    assert(base =~= seq![("ping"@, "ICMP Ping 连通性测试"@), ("builtin_port_scan"@, "Builtin TCP Port Scanner"@)]);
    if config.nmap_binary.is_some() {
        proof {
            lemma_register_new(base, "nmap"@, "Nmap Port Scanner"@);
        }
        r = r.register("nmap", "Nmap Port Scanner");
    }
    let ghost a = r.entries();
    if capability_path_exec(&config.tool_capabilities, "httpx").is_some() {
        proof {
            assert forall|k: int| 0 <= k < a.len() implies (#[trigger] a[k]).0 != "httpx"@ by {
                assert(a[k].0 == "ping"@ || a[k].0 == "builtin_port_scan"@ || a[k].0 == "nmap"@);
            }
            lemma_register_new(a, "httpx"@, "HTTPX Fingerprint Scanner"@);
        }
        r = r.register("httpx", "HTTPX Fingerprint Scanner");
    }
    let ghost b = r.entries();
    if capability_path_exec(&config.tool_capabilities, "nuclei").is_some() {
        proof {
            assert forall|k: int| 0 <= k < b.len() implies (#[trigger] b[k]).0 != "nuclei"@ by {
                assert(b[k].0 == "ping"@ || b[k].0 == "builtin_port_scan"@ || b[k].0 == "nmap"@ || b[k].0
                    == "httpx"@);
            }
            lemma_register_new(b, "nuclei"@, "Nuclei POC Scanner (Builtin HTTP Engine)"@);
        }
        r = r.register("nuclei", "Nuclei POC Scanner (Builtin HTTP Engine)");
    }
    r
}

/// A server always offers ping and the built-in port scan, first and in
/// that order; it offers nmap exactly when an nmap binary is configured,
/// and httpx and nuclei exactly when their capability has a path; no
/// command is offered twice.
pub proof fn law_registry_offers(c: AppConfig)
    ensures
        registry_entries(c).len() >= 2,
        registry_entries(c)[0].0 == "ping"@,
        registry_entries(c)[1].0 == "builtin_port_scan"@,
        (exists|k: int| 0 <= k < registry_entries(c).len() && (#[trigger] registry_entries(c)[k]).0 == "nmap"@)
            <==> c.nmap_binary is Some,
        (exists|k: int| 0 <= k < registry_entries(c).len() && (#[trigger] registry_entries(c)[k]).0 == "httpx"@)
            <==> capability_path(c.tool_capabilities@, "httpx"@) is Some,
        (exists|k: int| 0 <= k < registry_entries(c).len() && (#[trigger] registry_entries(c)[k]).0 == "nuclei"@)
            <==> capability_path(c.tool_capabilities@, "nuclei"@) is Some,
        ids_distinct(registry_entries(c)),
{
    reveal_strlit("ping");
    reveal_strlit("builtin_port_scan");
    reveal_strlit("nmap");
    reveal_strlit("httpx");
    reveal_strlit("nuclei");
    let es = registry_entries(c);
    assert("ping"@.len() == 4 && "builtin_port_scan"@.len() == 17 && "nmap"@.len() == 4 && "httpx"@.len() == 5
        && "nuclei"@.len() == 6);
    assert("ping"@[0] != "nmap"@[0]);
    let base = seq![("ping"@, "ICMP Ping 连通性测试"@), ("builtin_port_scan"@, "Builtin TCP Port Scanner"@)];
    let a = if c.nmap_binary is Some {
        base.push(("nmap"@, "Nmap Port Scanner"@))
    } else {
        base
    };
    let b = if capability_path(c.tool_capabilities@, "httpx"@) is Some {
        a.push(("httpx"@, "HTTPX Fingerprint Scanner"@))
    } else {
        a
    };
    assert(forall|k: int| 0 <= k < a.len() ==> (#[trigger] a[k]).0 == "ping"@ || a[k].0 == "builtin_port_scan"@
        || (a[k].0 == "nmap"@ && k == 2));
    assert(forall|k: int|
        0 <= k < b.len() ==> (#[trigger] b[k]).0 == "ping"@ || b[k].0 == "builtin_port_scan"@ || (b[k].0
            == "nmap"@ && k == 2) || (b[k].0 == "httpx"@ && k == b.len() - 1 && k == a.len()));
    assert(forall|k: int|
        0 <= k < es.len() ==> (#[trigger] es[k]).0 == "ping"@ || es[k].0 == "builtin_port_scan"@ || (es[k].0
            == "nmap"@ && k == 2 && c.nmap_binary is Some) || (es[k].0 == "httpx"@ && k == a.len()
            && capability_path(c.tool_capabilities@, "httpx"@) is Some) || (es[k].0 == "nuclei"@ && k == b.len()
            && capability_path(c.tool_capabilities@, "nuclei"@) is Some));
    assert(es[0].0 == "ping"@);
    assert(es[1].0 == "builtin_port_scan"@);
    if c.nmap_binary is Some {
        assert(es[2].0 == "nmap"@);
    }
    if capability_path(c.tool_capabilities@, "httpx"@) is Some {
        assert(es[a.len() as int].0 == "httpx"@);
    }
    if capability_path(c.tool_capabilities@, "nuclei"@) is Some {
        assert(es[b.len() as int].0 == "nuclei"@);
    }
}

} // verus!
