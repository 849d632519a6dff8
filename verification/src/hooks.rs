//! Event hooks: the configured list, its edits, and the dry-run messages
//! of the hooks that need no side effect to test.
use vstd::prelude::*;
use crate::text::{chars_of, occurs_at, occurs_at_exec, owned, push_str, str_eq, string_of};

verus! {

broadcast use vstd::string::group_string_axioms;

/// What a hook does when its event fires.
#[derive(Debug)]
pub enum HookAction {
    LogToFile { path: String },
    RunCommand { command: String, cwd: Option<String> },
    EmitEvent { event_name: String },
    AutoGitCommit { message_template: String },
}

/// A configured hook.
#[derive(Debug)]
pub struct HookConfig {
    pub id: String,
    pub name: String,
    pub event: String,
    pub action: HookAction,
    pub enabled: bool,
    pub filter: Option<String>,
}

/// Index of the first hook with id `id`.
pub open spec fn hook_index(hooks: Seq<HookConfig>, id: Seq<char>) -> Option<int> {
    if exists|k: int| 0 <= k < hooks.len() && hooks[k].id@ == id {
        Some(
            choose|k: int|
                0 <= k < hooks.len() && hooks[k].id@ == id && forall|j: int|
                    0 <= j < k ==> hooks[j].id@ != id,
        )
    } else {
        None
    }
}

fn find_hook(hooks: &Vec<HookConfig>, id: &str) -> (r: Option<usize>)
    ensures
        match r {
            Some(k) => k < hooks@.len() && hook_index(hooks@, id@) == Some(k as int),
            None => hook_index(hooks@, id@) is None,
        },
{
    let mut i: usize = 0;
    while i < hooks.len()
        invariant
            i <= hooks@.len(),
            forall|j: int| 0 <= j < i ==> hooks@[j].id@ != id@,
        decreases hooks@.len() - i,
    {
        if str_eq(hooks[i].id.as_str(), id) {
            proof {
                let c = choose|c: int|
                    0 <= c < hooks@.len() && hooks@[c].id@ == id@ && forall|j: int|
                        0 <= j < c ==> hooks@[j].id@ != id@;
                assert(0 <= c < hooks@.len() && hooks@[c].id@ == id@);
                if c < i {
                    assert(hooks@[c].id@ != id@);
                }
                if c > i {
                    assert(hooks@[i as int].id@ != id@);
                }
            }
            return Some(i);
        }
        i = i + 1;
    }
    None
}

pub open spec fn not_found(id: Seq<char>) -> Seq<char> {
    "Hook '"@ + id + "' not found"@
}

fn not_found_message(id: &str) -> (m: String)
    ensures
        m@ == not_found(id@),
{
    let mut m = owned("Hook '");
    push_str(&mut m, id);
    push_str(&mut m, "' not found");
    m
}

/// Replaces the first hook with id `id` by `config`; unknown ids are
/// refused and leave the list as it was.
pub fn update_hook(hooks: &mut Vec<HookConfig>, id: &str, config: HookConfig) -> (r: Result<
    (),
    String,
>)
    ensures
        match hook_index(old(hooks)@, id@) {
            Some(k) => r is Ok && final(hooks)@ == old(hooks)@.update(k, config),
            None => r matches Err(m) && m@ == not_found(id@) && final(hooks)@ == old(hooks)@,
        },
{
    match find_hook(hooks, id) {
        Some(k) => {
            hooks.set(k, config);
            Ok(())
        },
        None => Err(not_found_message(id)),
    }
}

/// The hooks whose id is not `id`, in order.
pub open spec fn without_id(hooks: Seq<HookConfig>, id: Seq<char>) -> Seq<HookConfig>
    decreases hooks.len(),
{
    if hooks.len() == 0 {
        Seq::empty()
    } else if hooks.last().id@ == id {
        without_id(hooks.drop_last(), id)
    } else {
        without_id(hooks.drop_last(), id).push(hooks.last())
    }
}

pub open spec fn has_id(hooks: Seq<HookConfig>, id: Seq<char>) -> bool {
    exists|k: int| 0 <= k < hooks.len() && #[trigger] hooks[k].id@ == id
}

proof fn lemma_without_id_len(hooks: Seq<HookConfig>, id: Seq<char>)
    ensures
        without_id(hooks, id).len() <= hooks.len(),
        without_id(hooks, id).len() == hooks.len() <==> !has_id(hooks, id),
    decreases hooks.len(),
{
    if hooks.len() > 0 {
        let d = hooks.drop_last();
        lemma_without_id_len(d, id);
        if has_id(d, id) {
            let k = choose|k: int| 0 <= k < d.len() && #[trigger] d[k].id@ == id;
            assert(hooks[k] == d[k]);
        }
        if has_id(hooks, id) && hooks.last().id@ != id {
            let k = choose|k: int| 0 <= k < hooks.len() && #[trigger] hooks[k].id@ == id;
            assert(k != hooks.len() - 1);
            assert(d[k] == hooks[k]);
        }
        if !has_id(hooks, id) {
            assert(hooks[hooks.len() - 1] == hooks.last());
            assert forall|k: int| 0 <= k < d.len() implies #[trigger] d[k].id@ != id by {
                assert(hooks[k] == d[k]);
            }
        }
    }
}

/// Removes every hook with id `id`; refused when there is none.
pub fn delete_hook(hooks: &mut Vec<HookConfig>, id: &str) -> (r: Result<(), String>)
    ensures
        final(hooks)@ == without_id(old(hooks)@, id@),
        r is Err <==> !has_id(old(hooks)@, id@),
        r matches Err(m) ==> m@ == not_found(id@),
{
    let ghost orig = hooks@;
    let mut rest: Vec<HookConfig> = Vec::new();
    std::mem::swap(hooks, &mut rest);
    let n = rest.len();
    let mut i: usize = 0;
    proof {
        assert(orig.take(0) =~= Seq::<HookConfig>::empty());
        assert(hooks@ =~= without_id(orig.take(0), id@));
        assert(rest@ =~= orig.skip(0));
    }
    while rest.len() > 0
        invariant
            orig.len() == n,
            rest@.len() <= n,
            i == n - rest@.len(),
            rest@ == orig.skip(i as int),
            hooks@ == without_id(orig.take(i as int), id@),
        decreases rest@.len(),
    {
        let ghost r0 = rest@;
        let h = rest.remove(0);
        proof {
            assert(h == orig[i as int]);
            assert(rest@ =~= orig.skip(i + 1));
            assert(orig.take(i + 1).drop_last() =~= orig.take(i as int));
            assert(orig.take(i + 1).last() == orig[i as int]);
        }
        if !str_eq(h.id.as_str(), id) {
            hooks.push(h);
        }
        i = i + 1;
    }
    proof {
        assert(orig.take(n as int) =~= orig);
        lemma_without_id_len(orig, id@);
    }
    if hooks.len() == n {
        Err(not_found_message(id))
    } else {
        Ok(())
    }
}

/// `s` with every occurrence of the non-empty `pat` replaced by `to`,
/// scanning left to right (`str::replace`).
pub open spec fn replace_all(s: Seq<char>, pat: Seq<char>, to: Seq<char>) -> Seq<char>
    decreases s.len(),
{
    if s.len() == 0 {
        Seq::empty()
    } else if pat.len() > 0 && occurs_at(s, pat, 0) {
        to + replace_all(s.skip(pat.len() as int), pat, to)
    } else {
        seq![s[0]] + replace_all(s.drop_first(), pat, to)
    }
}

fn replace_str(s: &str, pat: &str, to: &str) -> (r: String)
    ensures
        r@ == replace_all(s@, pat@, to@),
{
    let v = chars_of(s);
    let p = chars_of(pat);
    let t = chars_of(to);
    let mut out: Vec<char> = Vec::new();
    let mut i: usize = 0;
    proof {
        assert(v@.skip(0) =~= v@);
    }
    while i < v.len()
        invariant
            i <= v@.len(),
            v@ == s@,
            p@ == pat@,
            t@ == to@,
            out@ + replace_all(v@.skip(i as int), p@, t@) == replace_all(s@, pat@, to@),
        decreases v@.len() - i,
    {
        let ghost rest = v@.skip(i as int);
        let hit = p.len() > 0 && p.len() <= v.len() - i && occurs_at_exec(v.as_slice(), p.as_slice(), i);
        proof {
            if p@.len() > 0 && p@.len() <= v@.len() - i {
                assert(occurs_at(v@, p@, i as int) == occurs_at(rest, p@, 0)) by {
                    assert(v@.subrange(i as int, i + p@.len()) =~= rest.subrange(0, p@.len() as int));
                }
            } else if p@.len() > 0 {
                assert(!occurs_at(rest, p@, 0));
            }
        }
        if hit {
            let ghost before = out@;
            let mut k: usize = 0;
            while k < t.len()
                invariant
                    k <= t@.len(),
                    out@ == before + t@.take(k as int),
                decreases t@.len() - k,
            {
                out.push(t[k]);
                k = k + 1;
                assert(out@ =~= before + t@.take(k as int));
            }
            proof {
                assert(t@.take(t@.len() as int) =~= t@);
                assert(rest.skip(p@.len() as int) =~= v@.skip(i + p@.len()));
                assert(out@ + replace_all(v@.skip(i + p@.len()), p@, t@) =~= before + replace_all(
                    rest,
                    p@,
                    t@,
                ));
            }
            i = i + p.len();
        } else {
            let ghost before = out@;
            out.push(v[i]);
            proof {
                assert(rest[0] == v@[i as int]);
                assert(rest.drop_first() =~= v@.skip(i + 1));
                assert(out@ + replace_all(v@.skip(i + 1), p@, t@) =~= before + replace_all(
                    rest,
                    p@,
                    t@,
                ));
            }
            i = i + 1;
        }
    }
    proof {
        assert(v@.skip(i as int) =~= Seq::<char>::empty());
        assert(out@ + Seq::<char>::empty() =~= out@);
    }
    string_of(out.as_slice())
}

/// The dry-run message of an event-emitting hook.
pub fn emit_event_test_message(event_name: &str) -> (m: String)
    ensures
        m@ == "Would emit Tauri event '"@ + event_name@ + "' with mock payload"@,
{
    let mut m = owned("Would emit Tauri event '");
    push_str(&mut m, event_name);
    push_str(&mut m, "' with mock payload");
    m
}

/// The commit message an auto-commit hook's test uses: its template with
/// sample task title and requirement id filled in.
pub open spec fn test_commit_message(template: Seq<char>) -> Seq<char> {
    replace_all(replace_all(template, "{task_title}"@, "test-task"@), "{req_id}"@, "TEST-0"@)
}

/// The dry-run message of an auto-commit hook.
pub fn auto_commit_test_message(message_template: &str) -> (m: String)
    ensures
        m@ == "AutoGitCommit test: would run `git add -A && git commit -m \""@ + test_commit_message(
            message_template@,
        ) + "\"`"@,
{
    let first = replace_str(message_template, "{task_title}", "test-task");
    let msg = replace_str(first.as_str(), "{req_id}", "TEST-0");
    let mut m = owned("AutoGitCommit test: would run `git add -A && git commit -m \"");
    push_str(&mut m, msg.as_str());
    push_str(&mut m, "\"`");
    m
}

} // verus!
