//! The configured MCP servers as the settings keep them: a list in which
//! each id names one server.
use vstd::prelude::*;
use crate::json::Json;
use crate::text::{concat, push_str, str_eq};

verus! {

broadcast use vstd::string::group_string_axioms;

/// One MCP server: its id, whether it is started with the app, and the
/// rest of its configuration (command, arguments, environment) as given.
#[derive(Debug)]
pub struct McpServerConfig {
    pub id: String,
    pub enabled: bool,
    pub launch: Json,
}

pub open spec fn ids(list: Seq<McpServerConfig>) -> Seq<Seq<char>> {
    list.map_values(|s: McpServerConfig| s.id@)
}

/// The servers whose id is not `id`, in order.
pub open spec fn without_id(list: Seq<McpServerConfig>, id: Seq<char>) -> Seq<McpServerConfig>
    decreases list.len(),
{
    if list.len() == 0 {
        Seq::empty()
    } else {
        let rest = without_id(list.drop_first(), id);
        if list[0].id@ == id {
            rest
        } else {
            seq![list[0]] + rest
        }
    }
}

/// No id occurs twice.
pub open spec fn unique_ids(list: Seq<McpServerConfig>) -> bool {
    forall|a: int, b: int| 0 <= a < b < list.len() ==> list[a].id@ != list[b].id@
}

proof fn lemma_without_id(list: Seq<McpServerConfig>, id: Seq<char>)
    ensures
        forall|k: int| 0 <= k < without_id(list, id).len() ==> without_id(list, id)[k].id@ != id,
        forall|k: int|
            0 <= k < without_id(list, id).len() ==> list.contains(#[trigger] without_id(list, id)[k]),
        forall|k: int|
            0 <= k < list.len() && list[k].id@ != id ==> without_id(list, id).contains(
                #[trigger] list[k],
            ),
        unique_ids(list) ==> unique_ids(without_id(list, id)),
        without_id(list, id).len() <= list.len(),
    decreases list.len(),
{
    if list.len() > 0 {
        let d = list.drop_first();
        lemma_without_id(d, id);
        let w = without_id(d, id);
        let r = without_id(list, id);
        assert forall|k: int| 0 <= k < w.len() implies list.contains(#[trigger] w[k]) by {
            let j = choose|j: int| 0 <= j < d.len() && d[j] == w[k];
            assert(list[j + 1] == d[j]);
        }
        if list[0].id@ != id {
            assert forall|k: int| 0 <= k < r.len() implies list.contains(#[trigger] r[k]) by {
                if k == 0 {
                    assert(r[0] == list[0]);
                } else {
                    assert(r[k] == w[k - 1]);
                }
            }
            assert forall|k: int| 0 <= k < r.len() implies r[k].id@ != id by {
                if k > 0 {
                    assert(r[k] == w[k - 1]);
                }
            }
        }
        assert forall|k: int| 0 <= k < list.len() && list[k].id@ != id implies r.contains(
            #[trigger] list[k],
        ) by {
            if k == 0 {
                assert(r[0] == list[0]);
            } else {
                assert(list[k] == d[k - 1]);
                let j = choose|j: int| 0 <= j < w.len() && w[j] == d[k - 1];
                if list[0].id@ != id {
                    assert(r[j + 1] == w[j]);
                } else {
                    assert(r[j] == w[j]);
                }
            }
        }
        if unique_ids(list) {
            assert(unique_ids(d)) by {
                assert forall|a: int, b: int| 0 <= a < b < d.len() implies d[a].id@ != d[b].id@ by {
                    assert(d[a] == list[a + 1] && d[b] == list[b + 1]);
                }
            }
            if list[0].id@ != id {
                assert forall|a: int, b: int| 0 <= a < b < r.len() implies r[a].id@ != r[b].id@ by {
                    if a == 0 {
                        assert(r[b] == w[b - 1]);
                        let j = choose|j: int| 0 <= j < d.len() && d[j] == w[b - 1];
                        assert(list[j + 1] == d[j]);
                    } else {
                        assert(r[a] == w[a - 1] && r[b] == w[b - 1]);
                    }
                }
            }
        }
    }
}

fn find_index(list: &Vec<McpServerConfig>, id: &str) -> (r: Option<usize>)
    ensures
        match r {
            Some(i) => i < list@.len() && list@[i as int].id@ == id@ && forall|k: int|
                0 <= k < i ==> list@[k].id@ != id@,
            None => forall|k: int| 0 <= k < list@.len() ==> list@[k].id@ != id@,
        },
{
    let mut i: usize = 0;
    while i < list.len()
        invariant
            i <= list@.len(),
            forall|k: int| 0 <= k < i ==> list@[k].id@ != id@,
        decreases list@.len() - i,
    {
        if str_eq(list[i].id.as_str(), id) {
            return Some(i);
        }
        i = i + 1;
    }
    None
}

fn remove_all(list: Vec<McpServerConfig>, id: &str) -> (r: Vec<McpServerConfig>)
    ensures
        r@ == without_id(list@, id@),
{
    let ghost orig = list@;
    let mut rest = list;
    let mut out: Vec<McpServerConfig> = Vec::new();
    while rest.len() > 0
        invariant
            out@ + without_id(rest@, id@) == without_id(orig, id@),
        decreases rest@.len(),
    {
        let ghost r0 = rest@;
        let ghost o0 = out@;
        let first = rest.remove(0);
        proof {
            assert(r0.drop_first() =~= rest@);
        }
        if !str_eq(first.id.as_str(), id) {
            out.push(first);
            proof {
                assert(out@ + without_id(rest@, id@) =~= o0 + without_id(r0, id@));
            }
        }
    }
    proof {
        assert(out@ + Seq::<McpServerConfig>::empty() =~= out@);
    }
    out
}

/// Adds a server, replacing any server with its id.
pub fn upsert_server(list: &mut Vec<McpServerConfig>, config: McpServerConfig)
    ensures
        final(list)@ == without_id(old(list)@, config.id@).push(config),
{
    let mut cur: Vec<McpServerConfig> = Vec::new();
    std::mem::swap(&mut cur, list);
    let mut kept = remove_all(cur, config.id.as_str());
    kept.push(config);
    *list = kept;
}

/// Removes the server with id `id` (nothing when there is none).
pub fn remove_server(list: &mut Vec<McpServerConfig>, id: &str)
    ensures
        final(list)@ == without_id(old(list)@, id@),
{
    let mut cur: Vec<McpServerConfig> = Vec::new();
    std::mem::swap(&mut cur, list);
    *list = remove_all(cur, id);
}

/// Marks the first server with id `id` enabled or disabled; with
/// `required`, a missing server is an error.
pub fn set_server_enabled(list: &mut Vec<McpServerConfig>, id: &str, enabled: bool, required: bool) -> (r:
    Result<(), String>)
    ensures
        match find_first(old(list)@, id@) {
            Some(i) => r is Ok && final(list)@.len() == old(list)@.len() && final(list)@[i].enabled
                == enabled && final(list)@[i].id == old(list)@[i].id && final(list)@[i].launch
                == old(list)@[i].launch && forall|k: int|
                0 <= k < old(list)@.len() && k != i ==> final(list)@[k] == old(list)@[k],
            None => final(list)@ == old(list)@ && (required ==> (r matches Err(m) && m@ == "MCP server '"@
                + id@ + "' not found"@)) && (!required ==> r is Ok),
        },
{
    match find_index(list, id) {
        Some(i) => {
            let mut cur: Vec<McpServerConfig> = Vec::new();
            std::mem::swap(&mut cur, list);
            let ghost c0 = cur@;
            let mut s = cur.remove(i);
            s.enabled = enabled;
            cur.insert(i, s);
            proof {
                lemma_find_first(c0, id@, i as int);
                assert forall|k: int| 0 <= k < c0.len() && k != i implies cur@[k] == c0[k] by {
                    if k < i {
                        assert(cur@[k] == c0.remove(i as int)[k]);
                    } else {
                        assert(cur@[k] == c0.remove(i as int)[k - 1]);
                    }
                }
            }
            *list = cur;
            Ok(())
        },
        None => {
            proof {
                lemma_find_first_none(list@, id@);
            }
            if required {
                let mut m = concat("MCP server '", id);
                push_str(&mut m, "' not found");
                Err(m)
            } else {
                Ok(())
            }
        },
    }
}

/// The position of the first server with id `id`.
pub open spec fn find_first(list: Seq<McpServerConfig>, id: Seq<char>) -> Option<int>
    decreases list.len(),
{
    if list.len() == 0 {
        None
    } else if list[0].id@ == id {
        Some(0)
    } else {
        match find_first(list.drop_first(), id) {
            Some(i) => Some(i + 1),
            None => None,
        }
    }
}

proof fn lemma_find_first(list: Seq<McpServerConfig>, id: Seq<char>, i: int)
    requires
        0 <= i < list.len(),
        list[i].id@ == id,
        forall|k: int| 0 <= k < i ==> list[k].id@ != id,
    ensures
        find_first(list, id) == Some(i),
    decreases i,
{
    if i > 0 {
        assert forall|k: int| 0 <= k < i - 1 implies list.drop_first()[k].id@ != id by {
            assert(list.drop_first()[k] == list[k + 1]);
        }
        lemma_find_first(list.drop_first(), id, i - 1);
    }
}

proof fn lemma_find_first_none(list: Seq<McpServerConfig>, id: Seq<char>)
    requires
        forall|k: int| 0 <= k < list.len() ==> list[k].id@ != id,
    ensures
        find_first(list, id) is None,
    decreases list.len(),
{
    if list.len() > 0 {
        assert forall|k: int| 0 <= k < list.drop_first().len() implies list.drop_first()[k].id@
            != id by {
            assert(list.drop_first()[k] == list[k + 1]);
        }
        lemma_find_first_none(list.drop_first(), id);
    }
}

/// What the settings keep after adding a server: exactly one server with
/// its id, the one just added, and every other server as it was; ids stay
/// unique.
pub proof fn lemma_upsert_replaces(list: Seq<McpServerConfig>, config: McpServerConfig)
    requires
        unique_ids(list),
    ensures
        unique_ids(without_id(list, config.id@).push(config)),
        find_first(without_id(list, config.id@).push(config), config.id@) == Some(
            without_id(list, config.id@).len() as int,
        ),
        forall|k: int|
            0 <= k < list.len() && list[k].id@ != config.id@ ==> without_id(
                list,
                config.id@,
            ).push(config).contains(#[trigger] list[k]),
{
    lemma_without_id(list, config.id@);
    let w = without_id(list, config.id@);
    let r = w.push(config);
    assert forall|a: int, b: int| 0 <= a < b < r.len() implies r[a].id@ != r[b].id@ by {
        if b == r.len() - 1 {
            assert(r[a] == w[a]);
        } else {
            assert(r[a] == w[a] && r[b] == w[b]);
        }
    }
    assert forall|k: int| 0 <= k < w.len() implies r[k].id@ != config.id@ by {
        assert(r[k] == w[k]);
    }
    lemma_find_first(r, config.id@, w.len() as int);
    assert forall|k: int| 0 <= k < list.len() && list[k].id@ != config.id@ implies r.contains(
        #[trigger] list[k],
    ) by {
        let j = choose|j: int| 0 <= j < w.len() && w[j] == list[k];
        assert(r[j] == w[j]);
    }
}

/// Removing a server leaves no server with its id.
pub proof fn lemma_remove_leaves_none(list: Seq<McpServerConfig>, id: Seq<char>)
    ensures
        find_first(without_id(list, id), id) is None,
{
    lemma_without_id(list, id);
    lemma_find_first_none(without_id(list, id), id);
}

} // verus!
