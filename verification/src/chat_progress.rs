//! Turn timing estimates: percentile summaries of observed durations, and
//! the classification of which observations count.
use vstd::prelude::*;
use crate::order::{int_sorted, sort_i64};
use crate::text::{ascii_lower, chars_of};

verus! {

broadcast use vstd::string::group_string_axioms;

/// Interquartile summary of positive duration samples.
#[derive(Debug, Clone, Copy, PartialEq, Eq, Structural)]
pub struct DurationSampleSummary {
    pub sample_count: usize,
    pub p25_ms: i64,
    pub p75_ms: i64,
}

/// The positive samples, in the order given.
pub open spec fn positives(s: Seq<i64>) -> Seq<i64>
    decreases s.len(),
{
    if s.len() == 0 {
        Seq::empty()
    } else if s.last() > 0 {
        positives(s.drop_last()).push(s.last())
    } else {
        positives(s.drop_last())
    }
}

/// The ascending arrangement of a sequence.
pub open spec fn sorted_of(s: Seq<i64>) -> Seq<i64> {
    choose|t: Seq<i64>| int_sorted(t) && t.to_multiset() == s.to_multiset()
}

/// Summary over the positive samples: their count and the samples at
/// ranks `last/4` and `ceil(3*last/4)` of the ascending order.
pub open spec fn summary_spec(samples: Seq<i64>) -> Option<DurationSampleSummary> {
    let p = positives(samples);
    if p.len() == 0 {
        None
    } else {
        let t = sorted_of(p);
        let last = p.len() - 1;
        Some(
            DurationSampleSummary {
                sample_count: p.len() as usize,
                p25_ms: t[last / 4],
                p75_ms: t[(last * 3 + 3) / 4],
            },
        )
    }
}

proof fn lemma_int_sorted_unique(a: Seq<i64>, b: Seq<i64>)
    requires
        int_sorted(a),
        int_sorted(b),
        a.to_multiset() == b.to_multiset(),
    ensures
        a == b,
    decreases a.len(),
{
    a.to_multiset_ensures();
    b.to_multiset_ensures();
    if a.len() == 0 {
        assert(b =~= a);
    } else {
        assert(b.len() == a.len());
        assert(a.contains(a[0]));
        assert(a.to_multiset().count(a[0]) > 0);
        assert(b.to_multiset().count(a[0]) > 0);
        assert(b.contains(a[0]));
        assert(b.contains(b[0]));
        assert(b.to_multiset().count(b[0]) > 0);
        assert(a.to_multiset().count(b[0]) > 0);
        assert(a.contains(b[0]));
        let j = choose|j: int| 0 <= j < b.len() && b[j] == a[0];
        let i = choose|i: int| 0 <= i < a.len() && a[i] == b[0];
        assert(b[0] <= b[j]);
        assert(a[0] <= a[i]);
        assert(a.remove(0) =~= a.drop_first());
        assert(b.remove(0) =~= b.drop_first());
        assert(a.drop_first().to_multiset() =~= a.to_multiset().remove(a[0]));
        assert(b.drop_first().to_multiset() =~= b.to_multiset().remove(b[0]));
        lemma_int_sorted_unique(a.drop_first(), b.drop_first());
        assert forall|k: int| 0 <= k < a.len() implies a[k] == b[k] by {
            if k > 0 {
                assert(a[k] == a.drop_first()[k - 1]);
                assert(b[k] == b.drop_first()[k - 1]);
            }
        }
        assert(a =~= b);
    }
}

/// For each value, how often the positive samples hold it.
proof fn lemma_positives_count(s: Seq<i64>)
    ensures
        forall|x: i64|
            #[trigger] positives(s).to_multiset().count(x) == if x > 0 {
                s.to_multiset().count(x)
            } else {
                0
            },
    decreases s.len(),
{
    broadcast use vstd::seq_lib::group_to_multiset_ensures;
    broadcast use vstd::multiset::group_multiset_axioms;

    if s.len() == 0 {
        assert(positives(s) =~= Seq::<i64>::empty());
        assert(s.to_multiset() =~= vstd::multiset::Multiset::<i64>::empty());
        assert(positives(s).to_multiset() =~= vstd::multiset::Multiset::<i64>::empty());
    } else {
        let d = s.drop_last();
        lemma_positives_count(d);
        assert(s =~= d.push(s.last()));
        assert(s.to_multiset() =~= d.to_multiset().insert(s.last()));
        if s.last() > 0 {
            assert(positives(s) == positives(d).push(s.last()));
            assert(positives(s).to_multiset() =~= positives(d).to_multiset().insert(s.last()));
        } else {
            assert(positives(s) == positives(d));
        }
        assert forall|x: i64| #[trigger] positives(s).to_multiset().count(x) == if x > 0 {
            s.to_multiset().count(x)
        } else {
            0
        } by {
            assert(positives(d).to_multiset().count(x) == if x > 0 {
                d.to_multiset().count(x)
            } else {
                0
            });
        }
    }
}

/// The ascending arrangement exists: `sorted_of` is sorted and holds the
/// same values.
proof fn lemma_sorted_of(p: Seq<i64>)
    ensures
        int_sorted(sorted_of(p)),
        sorted_of(p).to_multiset() == p.to_multiset(),
{
    let leq = |a: i64, b: i64| a <= b;
    p.lemma_sort_by_ensures(leq);
    let t = p.sort_by(leq);
    assert forall|i: int, j: int| 0 <= i < j < t.len() implies t[i] <= t[j] by {
        assert(leq(t[i], t[j]));
    }
    assert(int_sorted(t) && t.to_multiset() == p.to_multiset());
}

/// The summary of a set of samples does not depend on their order: two
/// orderings of the same samples give the same summary, and its 25th
/// percentile never exceeds its 75th.
pub proof fn lemma_summary_order_free(a: Seq<i64>, b: Seq<i64>)
    requires
        a.to_multiset() == b.to_multiset(),
    ensures
        summary_spec(a) == summary_spec(b),
        match summary_spec(a) {
            Some(s) => s.p25_ms <= s.p75_ms,
            None => true,
        },
{
    broadcast use vstd::seq_lib::group_to_multiset_ensures;

    let pa = positives(a);
    let pb = positives(b);
    lemma_positives_count(a);
    lemma_positives_count(b);
    assert(pa.to_multiset() =~= pb.to_multiset());
    assert(pa.len() == pa.to_multiset().len());
    assert(pb.len() == pb.to_multiset().len());
    lemma_sorted_of(pa);
    lemma_sorted_of(pb);
    lemma_int_sorted_unique(sorted_of(pa), sorted_of(pb));
    if pa.len() > 0 {
        let t = sorted_of(pa);
        let last = pa.len() - 1;
        assert(t.len() == pa.len()) by {
            assert(t.len() == t.to_multiset().len());
        }
        assert(last / 4 <= (last * 3 + 3) / 4 < t.len());
        if last / 4 < (last * 3 + 3) / 4 {
            assert(t[last / 4] <= t[(last * 3 + 3) / 4]);
        }
    }
}

/// Deterministic interquartile summary of the positive samples; `None`
/// when there are none.
pub fn summarize(samples: Vec<i64>) -> (r: Option<DurationSampleSummary>)
    ensures
        r == summary_spec(samples@),
{
    let mut kept: Vec<i64> = Vec::new();
    let mut i: usize = 0;
    while i < samples.len()
        invariant
            i <= samples@.len(),
            kept@ == positives(samples@.take(i as int)),
        decreases samples@.len() - i,
    {
        if samples[i] > 0 {
            kept.push(samples[i]);
        }
        proof {
            assert(samples@.take(i + 1).drop_last() =~= samples@.take(i as int));
        }
        i = i + 1;
    }
    proof {
        assert(samples@.take(samples@.len() as int) =~= samples@);
    }
    if kept.len() == 0 {
        return None;
    }
    let ghost p = kept@;
    let sorted = sort_i64(kept);
    proof {
        lemma_int_sorted_unique(sorted@, sorted_of(p));
        sorted@.to_multiset_ensures();
        p.to_multiset_ensures();
    }
    let last = sorted.len() - 1;
    let p25_index = last / 4;
    let p75_index = (last / 4) * 3 + ((last % 4) * 3 + 3) / 4;
    proof {
        assert(p75_index == (last * 3 + 3) / 4) by (nonlinear_arith)
            requires
                p75_index == (last / 4) * 3 + ((last % 4) * 3 + 3) / 4,
        ;
        assert(p75_index <= last) by (nonlinear_arith)
            requires
                p75_index == (last * 3 + 3) / 4,
        ;
    }
    Some(
        DurationSampleSummary {
            sample_count: sorted.len(),
            p25_ms: sorted[p25_index],
            p75_ms: sorted[p75_index],
        },
    )
}

/// A word character of a shell command: ASCII letter, digit or `_`.
pub open spec fn is_word_char(c: char) -> bool {
    ('a' <= c <= 'z') || ('A' <= c <= 'Z') || ('0' <= c <= '9') || c == '_'
}

fn is_word_char_exec(c: char) -> (b: bool)
    ensures
        b == is_word_char(c),
{
    ('a' <= c && c <= 'z') || ('A' <= c && c <= 'Z') || ('0' <= c && c <= '9') || c == '_'
}

/// Command words that mark a build or test run.
pub open spec fn build_test_words() -> Seq<Seq<char>> {
    seq!["build"@, "test"@, "vitest"@, "pytest"@, "jest"@]
}

/// `cmd[i..j]` is a whole word (maximal run of word characters).
pub open spec fn whole_word(cmd: Seq<char>, i: int, j: int) -> bool {
    &&& 0 <= i < j <= cmd.len()
    &&& (i == 0 || !is_word_char(cmd[i - 1]))
    &&& (j == cmd.len() || !is_word_char(cmd[j]))
    &&& forall|k: int| i <= k < j ==> is_word_char(#[trigger] cmd[k])
}

/// Some whole word of the command is, ignoring ASCII case, a build or test
/// word.
pub open spec fn names_build_or_test(cmd: Seq<char>) -> bool {
    exists|i: int, j: int|
        whole_word(cmd, i, j) && #[trigger] build_test_words().contains(
            ascii_lower(cmd.subrange(i, j)),
        )
}

fn is_build_test_word(w: &Vec<char>) -> (b: bool)
    ensures
        b == build_test_words().contains(ascii_lower(w@)),
{
    let lower = crate::text::ascii_lower_chars(w.as_slice());
    let words: Vec<&str> = vec!["build", "test", "vitest", "pytest", "jest"];
    let mut i: usize = 0;
    while i < words.len()
        invariant
            i <= words@.len(),
            lower@ == ascii_lower(w@),
            words@.len() == 5,
            forall|k: int| 0 <= k < 5 ==> #[trigger] words@[k]@ == build_test_words()[k],
            forall|k: int| 0 <= k < i ==> lower@ != #[trigger] build_test_words()[k],
        decreases words@.len() - i,
    {
        let cand = chars_of(words[i]);
        if crate::text::chars_eq(lower.as_slice(), cand.as_slice()) {
            proof {
                assert(lower@ == ascii_lower(w@));
                assert(lower@ == cand@);
                assert(cand@ == words@[i as int]@);
                assert(words@[i as int]@ == build_test_words()[i as int]);
                assert(build_test_words()[i as int] == lower@);
                assert(build_test_words().len() == 5);
                assert(build_test_words().contains(lower@));
            }
            return true;
        }
        i = i + 1;
    }
    proof {
        if build_test_words().contains(lower@) {
            let k = choose|k: int|
                0 <= k < build_test_words().len() && build_test_words()[k] == lower@;
            assert(lower@ != build_test_words()[k]);
        }
    }
    false
}

/// Whether a shell command runs a build or a test tool.
pub fn command_is_build_or_test(command: &str) -> (b: bool)
    ensures
        b == names_build_or_test(command@),
{
    let cmd = chars_of(command);
    let n = cmd.len();
    let mut i: usize = 0;
    while i < n
        invariant
            n == cmd@.len(),
            cmd@ == command@,
            i <= n,
            i == 0 || i == n || !is_word_char(cmd@[i - 1]) || !is_word_char(cmd@[i as int]),
            forall|a: int, c: int|
                whole_word(cmd@, a, c) && a < i ==> !build_test_words().contains(
                    ascii_lower(#[trigger] cmd@.subrange(a, c)),
                ),
        decreases n - i,
    {
        if !is_word_char_exec(cmd[i]) {
            proof {
                assert forall|a: int, c: int|
                    whole_word(cmd@, a, c) && a < i + 1 implies !build_test_words().contains(
                    ascii_lower(#[trigger] cmd@.subrange(a, c)),
                ) by {
                    if a == i {
                        assert(!is_word_char(cmd@[a]));
                    }
                }
            }
            i = i + 1;
        } else {
            let start = i;
            let mut j = i;
            while j < n && is_word_char_exec(cmd[j])
                invariant
                    n == cmd@.len(),
                    start <= j <= n,
                    forall|k: int| start <= k < j ==> is_word_char(#[trigger] cmd@[k]),
                decreases n - j,
            {
                j = j + 1;
            }
            let word = crate::text::slice_chars(&cmd, start, j);
            let hit = is_build_test_word(&word);
            proof {
                if i > 0 {
                    assert(!is_word_char(cmd@[i - 1]) || !is_word_char(cmd@[i as int]));
                }
                assert(whole_word(cmd@, start as int, j as int));
            }
            if hit {
                return true;
            }
            proof {
                assert forall|a: int, c: int|
                    whole_word(cmd@, a, c) && a < j implies !build_test_words().contains(
                    ascii_lower(#[trigger] cmd@.subrange(a, c)),
                ) by {
                    if a >= start {
                        if a > start {
                            assert(is_word_char(cmd@[a - 1]));
                        }
                        assert(a == start);
                        if c < j {
                            assert(is_word_char(cmd@[c]));
                        }
                        if c > j {
                            assert(is_word_char(cmd@[j as int]));
                        }
                        assert(c == j);
                    }
                }
            }
            i = j;
        }
    }
    false
}

/// The string entry named `key` of a JSON text holding an object: `None`
/// when the text is not JSON, or the entry is missing or not a string.
pub uninterp spec fn json_text_field(json: Seq<char>, key: Seq<char>) -> Option<Seq<char>>;

/// The `command` field of a JSON tool-argument object, when it is a string.
pub open spec fn json_command_field(arguments: Seq<char>) -> Option<Seq<char>> {
    json_text_field(arguments, "command"@)
}

/// Parses `json` with serde_json and reads its entry `key` as a string.
#[verifier::external_body]
fn text_field(json: &str, key: &str) -> (r: Option<String>)
    ensures
        match r {
            Some(c) => json_text_field(json@, key@) == Some(c@),
            None => json_text_field(json@, key@) is None,
        },
{
    serde_json::from_str::<serde_json::Value>(json).ok().and_then(
        |value| value.get(key).and_then(|c| c.as_str()).map(|c| c.to_owned()),
    )
}

/// A recorded bash call ran a build or test command: its JSON arguments
/// carry a `command` string (missing reads as empty) naming such a tool.
pub fn is_build_or_test_command(arguments: &str) -> (b: bool)
    ensures
        b == names_build_or_test(
            match json_command_field(arguments@) {
                Some(c) => c,
                None => Seq::<char>::empty(),
            },
        ),
{
    match text_field(arguments, "command") {
        Some(c) => command_is_build_or_test(c.as_str()),
        None => {
            let empty = String::new();
            command_is_build_or_test(empty.as_str())
        },
    }
}

/// The instant an RFC 3339 timestamp denotes, in Unix milliseconds.
pub uninterp spec fn rfc3339_millis(text: Seq<char>) -> Option<int>;

/// Parses an RFC 3339 timestamp with chrono and gives its Unix milliseconds.
#[verifier::external_body]
pub(crate) fn parse_rfc3339_millis(text: &str) -> (r: Option<i64>)
    ensures
        match r {
            Some(ms) => rfc3339_millis(text@) == Some(ms as int),
            None => rfc3339_millis(text@) is None,
        },
{
    chrono::DateTime::parse_from_rfc3339(text).ok().map(|t| t.timestamp_millis())
}

/// Duration of an external job, when both timestamps parse and it is
/// positive.
pub open spec fn job_duration_spec(started: Seq<char>, completed: Seq<char>) -> Option<int> {
    match (rfc3339_millis(started), rfc3339_millis(completed)) {
        (Some(s), Some(c)) => if c - s > 0 && c - s <= i64::MAX {
            Some(c - s)
        } else {
            None
        },
        _ => None,
    }
}

/// Milliseconds an external job ran; `None` unless both timestamps are
/// valid RFC 3339 and the job took positive time.
pub fn external_job_duration(started_at: &str, completed_at: &str) -> (r: Option<i64>)
    ensures
        match r {
            Some(d) => job_duration_spec(started_at@, completed_at@) == Some(d as int),
            None => job_duration_spec(started_at@, completed_at@) is None,
        },
{
    let started = match parse_rfc3339_millis(started_at) {
        Some(s) => s,
        None => return None,
    };
    let completed = match parse_rfc3339_millis(completed_at) {
        Some(c) => c,
        None => return None,
    };
    let d = (completed as i128) - (started as i128);
    if d > 0 && d <= i64::MAX as i128 {
        Some(d as i64)
    } else {
        None
    }
}

} // verus!
