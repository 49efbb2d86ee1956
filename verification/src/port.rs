//! Port allocation for the supervised server.
//!
//! Starting from a preferred port (`0` means any), the allocator probes
//! for a free TCP/UDP port and returns the first one found at or above the
//! preference, within a fixed search span.  When the allocated port
//! differs from the persisted one, the caller must write it back through
//! the configuration codec before the process is spawned.

use vstd::prelude::*;

use crate::config::ConfigData;
use crate::config::ConfigDocument;

verus! {

/// How many consecutive ports are probed beyond the preferred one.
pub const PORT_SEARCH_SPAN: u16 = 100;

/// Relies on `portpicker::is_free`: whether a TCP and UDP bind to the
/// port succeeded at probe time.  The outcome depends on the machine's
/// state, so nothing is assumed of it.
#[verifier::external_body]
fn probe_port_free(port: u16) -> bool {
    portpicker::is_free(port)
}

/// Relies on `portpicker::pick_unused_port`: some port that was free at
/// probe time, or `None`.  The outcome depends on the machine's state and
/// on a random choice, so nothing is assumed of it.
#[verifier::external_body]
fn pick_any_port() -> Option<u16> {
    portpicker::pick_unused_port()
}

/// In a non-production execution mode the preferred port is shifted up by
/// one, so a development instance does not collide with a separately
/// running production instance; `0` (any port) and the largest port are
/// left unchanged.
pub open spec fn effective_preferred_spec(port: u16, dev: bool) -> u16 {
    if dev && 0 < port && port < 0xffff {
        (port + 1) as u16
    } else {
        port
    }
}

/// The preferred starting port for the given execution mode.
pub fn effective_preferred(port: u16, dev: bool) -> (r: u16)
    ensures
        r == effective_preferred_spec(port, dev),
{
    if dev && 0 < port && port < 0xffff {
        port + 1
    } else {
        port
    }
}

/// Pure selection over recorded probe outcomes: `probes[i]` tells whether
/// the port `preferred + i` was free, and the first free port at or above
/// the preference is picked; `None` when none is free in the probed range.
pub open spec fn select_port_spec(preferred: u16, probes: Seq<bool>) -> Option<u16>
    decreases probes.len(),
{
    if probes.len() == 0 {
        None
    } else if probes[0] {
        Some(preferred)
    } else if preferred == 0xffff {
        None
    } else {
        select_port_spec((preferred + 1) as u16, probes.drop_first())
    }
}

/// Select the first free port from recorded probe outcomes.
pub fn select_port(preferred: u16, probes: &Vec<bool>) -> (r: Option<u16>)
    ensures
        r == select_port_spec(preferred, probes@),
{
    let ghost full = probes@;
    let mut i: usize = 0;
    let mut cur: u16 = preferred;
    proof {
        assert(full.skip(0) =~= full);
    }
    while i < probes.len()
        invariant
            0 <= i <= probes.len(),
            full == probes@,
            probes.len() == full.len(),
            select_port_spec(preferred, full) == select_port_spec(cur, full.skip(i as int)),
        decreases probes.len() - i,
    {
        proof {
            assert(full.skip(i as int)[0] == full[i as int]);
            assert(full.skip(i as int).drop_first() =~= full.skip(i as int + 1));
        }
        if probes[i] {
            return Some(cur);
        }
        if cur == 0xffff {
            return None;
        }
        cur += 1;
        i += 1;
    }
    proof {
        assert(full.skip(full.len() as int) =~= Seq::<bool>::empty());
    }
    None
}

/// Selection only skips a port whose probe failed: over a run of failed
/// probes, selecting from `start` is selecting from `start + i` on what
/// remains, and `None` past the end of the port space.
proof fn lemma_select_after_false(start: u16, probes: Seq<bool>, i: int)
    requires
        0 <= i <= probes.len(),
        forall|j: int| 0 <= j < i ==> !probes[j],
        start as int + i <= 0x10000,
    ensures
        select_port_spec(start, probes) == (if start as int + i <= 0xffff {
            select_port_spec((start as int + i) as u16, probes.skip(i))
        } else {
            None
        }),
    decreases i,
{
    if i == 0 {
        assert(probes.skip(0) =~= probes);
    } else {
        assert(!probes[0]);
        if start < 0xffff {
            lemma_select_after_false((start + 1) as u16, probes.drop_first(), i - 1);
            assert(probes.drop_first().skip(i - 1) =~= probes.skip(i));
            assert(forall|j: int|
                0 <= j < i - 1 ==> !(#[trigger] probes.drop_first()[j]));
        }
    }
}

/// A selected port lies at or above the preference and within the probed
/// range.
pub proof fn lemma_select_port_range(preferred: u16, probes: Seq<bool>)
    ensures
        select_port_spec(preferred, probes) matches Some(p) ==> preferred <= p && (p as int)
            < preferred as int + probes.len(),
    decreases probes.len(),
{
    if probes.len() > 0 && !probes[0] && preferred < 0xffff {
        lemma_select_port_range((preferred + 1) as u16, probes.drop_first());
    }
}

/// The rule the testable port scenario asks for: with the preferred port
/// in use and the next one free at probe time, selection returns the next
/// port.
pub proof fn lemma_preferred_busy_next_free(preferred: u16, probes: Seq<bool>)
    requires
        0 < preferred < 0xffff,
        probes.len() >= 2,
        !probes[0],
        probes[1],
    ensures
        select_port_spec(preferred, probes) == Some((preferred + 1) as u16),
{
    let rest = probes.drop_first();
    assert(rest[0] == probes[1]);
    assert(select_port_spec((preferred + 1) as u16, rest) == Some((preferred + 1) as u16));
    assert(select_port_spec(preferred, probes) == select_port_spec((preferred + 1) as u16, rest));
}

/// Probe the ports `start`, `start + 1`, … within the search span,
/// returning the verdict together with the recorded probe outcomes: the
/// verdict is exactly the first-free selection over those outcomes, and a
/// `None` verdict comes only after the whole defined search range (or the
/// rest of the port space) was probed.
fn scan_from(start: u16) -> (r: (Option<u16>, Vec<bool>))
    requires
        start > 0,
    ensures
        r.0 == select_port_spec(start, r.1@),
        r.1@.len() <= PORT_SEARCH_SPAN + 1,
        r.0 is None ==> r.1@.len() == PORT_SEARCH_SPAN + 1 || start as int + r.1@.len()
            == 0x10000,
{
    let mut outcomes: Vec<bool> = Vec::new();
    let mut i: u16 = 0;
    while i <= PORT_SEARCH_SPAN
        invariant
            i as int == outcomes@.len(),
            0 <= i <= PORT_SEARCH_SPAN + 1,
            start as int + i as int <= 0x10000,
            forall|j: int| 0 <= j < outcomes@.len() ==> !(#[trigger] outcomes@[j]),
        decreases PORT_SEARCH_SPAN + 1 - i,
    {
        let cand: u32 = start as u32 + i as u32;
        if cand > 0xffff {
            proof {
                lemma_select_after_false(start, outcomes@, i as int);
            }
            return (None, outcomes);
        }
        let c: u16 = cand as u16;
        let free = probe_port_free(c);
        outcomes.push(free);
        if free {
            proof {
                lemma_select_after_false(start, outcomes@, i as int);
                assert(outcomes@.skip(i as int) =~= seq![true]);
            }
            return (Some(c), outcomes);
        }
        i += 1;
    }
    proof {
        lemma_select_after_false(start, outcomes@, i as int);
        assert(outcomes@.skip(i as int) =~= Seq::<bool>::empty());
    }
    (None, outcomes)
}

/// Find an available port, starting from the preferred value; `0` means
/// any port.  For a non-zero preference the verdict is exactly the
/// first-free selection over the returned probe outcomes (port `preferred
/// + i` probed free if and only if the outcome at `i` is set), so the
/// first free port at or above the preference is returned, within the
/// search span; a `None` verdict comes only once the whole search range
/// was probed.  When any port was acceptable, the port is in the
/// unprivileged range.  `None` is the fatal port-exhaustion condition.
pub fn allocate(preferred: u16) -> (r: (Option<u16>, Vec<bool>))
    ensures
        preferred > 0 ==> r.0 == select_port_spec(preferred, r.1@),
        preferred > 0 ==> (r.0 is None ==> r.1@.len() == PORT_SEARCH_SPAN + 1 || preferred as int
            + r.1@.len() == 0x10000),
        preferred > 0 ==> (r.0 matches Some(p) ==> preferred <= p && p as int <= preferred as int
            + PORT_SEARCH_SPAN as int),
        preferred == 0 ==> (r.0 matches Some(p) ==> 1024 <= p),
{
    if preferred == 0 {
        let picked = pick_any_port();
        match picked {
            Some(p) => {
                if p >= 1024 {
                    (Some(p), Vec::new())
                } else {
                    let r = scan_from(1024);
                    proof {
                        lemma_select_port_range(1024, r.1@);
                    }
                    r
                }
            },
            None => {
                let r = scan_from(1024);
                proof {
                    lemma_select_port_range(1024, r.1@);
                }
                r
            },
        }
    } else {
        let r = scan_from(preferred);
        proof {
            lemma_select_port_range(preferred, r.1@);
        }
        r
    }
}

/// Write the allocated port into the document when it differs from the
/// persisted one: the returned flag says whether the document must be
/// saved again, so that the persisted configuration always reflects the
/// port actually in use.
pub fn reconcile_port(doc: &ConfigDocument, allocated: u16) -> (r: (ConfigDocument, bool))
    ensures
        r.0@ == (ConfigData { port: allocated, ..doc@ }),
        r.1 == (allocated != doc.port),
{
    let mut env: Vec<(String, String)> = Vec::new();
    let mut i: usize = 0;
    while i < doc.env.len()
        invariant
            0 <= i <= doc.env.len(),
            env.deep_view() == doc.env.deep_view().take(i as int),
        decreases doc.env.len() - i,
    {
        let entry = &doc.env[i];
        let ghost before = env.deep_view();
        env.push((entry.0.clone(), entry.1.clone()));
        proof {
            assert(env.deep_view() =~= before.push((entry.0@, entry.1@)));
            assert(env.deep_view() =~= doc.env.deep_view().take(i as int + 1));
        }
        i += 1;
    }
    proof {
        assert(doc.env.deep_view().take(doc.env@.len() as int) =~= doc.env.deep_view());
    }
    let working_dir: Option<String> = match &doc.working_dir {
        Some(w) => Some(w.clone()),
        None => None,
    };
    let updated = ConfigDocument {
        mode: doc.mode.clone(),
        addr: doc.addr.clone(),
        port: allocated,
        telemetry: doc.telemetry,
        working_dir,
        env,
    };
    let changed: bool = allocated != doc.port;
    proof {
        assert(updated@ =~= (ConfigData { port: allocated, ..doc@ }));
    }
    (updated, changed)
}

} // verus!
