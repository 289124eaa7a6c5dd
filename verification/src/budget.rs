//! Token counting and the token budget applied to plain text.
use vstd::prelude::*;
use vstd::string::StringExecFns;
use crate::text::{contains, contains_str, dec, dec_usize, join, join_range, lines, split_lines, views};

verus! {

/// The number of tokens that the cl100k_base tokenizer produces for a text.
pub uninterp spec fn token_count(text: Seq<char>) -> nat;

/// Approximate token count of a text with the cl100k_base tokenizer.
///
/// Calls `CoreBPE::encode_ordinary` of tiktoken-rs on the shared
/// `cl100k_base_singleton()` and returns the number of tokens; the contract
/// names that number `token_count` and claims nothing else of it. The
/// tokenizer panics only if its bundled vocabulary fails to load or its regex
/// engine gives up, which this contract does not state.
#[verifier::external_body]
pub fn count_tokens(text: &str) -> (n: usize)
    ensures
        n as nat == token_count(text@),
{
    tiktoken_rs::cl100k_base_singleton().encode_ordinary(text).len()
}

/// Strategy for compacting output that exceeds the token budget.
#[derive(Debug, Clone, Copy, PartialEq, Eq, Structural)]
pub enum CompactionStrategy {
    /// Keep the first and last portions, elide the middle.
    HeadTail,
    /// Keep only the first N tokens worth of content.
    HeadOnly,
    /// Rule-based extraction of key information.
    RuleBased,
}

impl Default for CompactionStrategy {
    fn default() -> (s: Self)
        ensures
            s == CompactionStrategy::HeadTail,
    {
        CompactionStrategy::HeadTail
    }
}

/// The result of applying a token budget to output.
#[derive(Debug, Clone)]
pub struct BudgetedOutput {
    /// The final output content.
    pub content: String,
    /// Actual token count of the returned content.
    pub tokens: usize,
    /// Whether the output was truncated or compacted.
    pub truncated: bool,
    /// Original token count before compaction.
    pub original_tokens: usize,
}

impl BudgetedOutput {
    /// Whether truncation was severe: the output was truncated and the
    /// original held more than twice the tokens that were returned.
    pub fn flush_recommended(&self) -> (r: bool)
        ensures
            r == (self.truncated && self.original_tokens > 2 * self.tokens),
    {
        self.truncated && self.tokens < self.original_tokens && self.original_tokens
            - self.tokens > self.tokens
    }
}

// ------------------------------------------------------------------
// Specifications
// ------------------------------------------------------------------

/// `a - b`, or 0 when `b > a`.
pub open spec fn sat_sub(a: int, b: int) -> nat {
    if a >= b {
        (a - b) as nat
    } else {
        0
    }
}

/// Token counts of each line.
pub open spec fn line_tokens(ls: Seq<Seq<char>>) -> Seq<nat> {
    ls.map_values(|l: Seq<char>| token_count(l))
}

/// How many leading items fit the budget when taken one by one, stopping at
/// the first that does not fit.
pub open spec fn greedy(ts: Seq<nat>, budget: nat) -> nat
    decreases ts.len(),
{
    if ts.len() == 0 || ts[0] > budget {
        0
    } else {
        1 + greedy(ts.drop_first(), (budget - ts[0]) as nat)
    }
}

/// The tokens used by the items that [`greedy`] takes.
pub open spec fn greedy_used(ts: Seq<nat>, budget: nat) -> nat
    decreases ts.len(),
{
    if ts.len() == 0 || ts[0] > budget {
        0
    } else {
        ts[0] + greedy_used(ts.drop_first(), (budget - ts[0]) as nat)
    }
}

/// How many trailing items fit the budget when taken from the end one by one.
pub open spec fn greedy_back(ts: Seq<nat>, budget: nat) -> nat
    decreases ts.len(),
{
    if ts.len() == 0 || ts.last() > budget {
        0
    } else {
        1 + greedy_back(ts.drop_last(), (budget - ts.last()) as nat)
    }
}

/// Keeps the first lines that fit `max_tokens - 5` and reports how many
/// lines were left out.
pub open spec fn head_only_text(text: Seq<char>, max_tokens: nat) -> Seq<char> {
    let ls = lines(text);
    let k = greedy(line_tokens(ls), sat_sub(max_tokens as int, 5));
    let omitted = ls.len() - k;
    join(ls.take(k as int), "\n"@) + if omitted > 0 {
        "\n... ("@ + dec(omitted as nat) + " more lines truncated)"@
    } else {
        seq![]
    }
}

/// The head budget: three fifths of the usable tokens, rounded down.
pub open spec fn head_share(usable: nat) -> nat {
    (usable * 3 / 5) as nat
}

/// The base tail budget: two fifths of the usable tokens, rounded down.
pub open spec fn tail_share(usable: nat) -> nat {
    (usable * 2 / 5) as nat
}

/// Keeps leading lines within the head budget and trailing lines within the
/// tail budget (plus what the head left unused), with a marker for the
/// lines left out between them. Texts of at most three lines are handled as
/// by [`head_only_text`].
pub open spec fn head_tail_text(text: Seq<char>, max_tokens: nat) -> Seq<char> {
    let ls = lines(text);
    let n = ls.len();
    if n <= 3 {
        head_only_text(text, max_tokens)
    } else {
        let usable = sat_sub(max_tokens as int, 5);
        let ts = line_tokens(ls);
        let hb = head_share(usable);
        let k = greedy(ts, hb);
        let tb = tail_share(usable) + (hb - greedy_used(ts, hb));
        let m = greedy_back(ts, tb as nat);
        let omitted = sat_sub(n as int, (k + m) as int);
        join(ls.take(k as int), "\n"@) + (if omitted > 0 {
            "\n... ("@ + dec(omitted) + " lines omitted) ...\n"@
        } else {
            seq![]
        }) + join(ls.subrange(n - m, n as int), "\n"@)
    }
}

/// A line that mentions an error, warning, panic or failure.
pub open spec fn is_priority_line(l: Seq<char>) -> bool {
    contains(l, "error"@) || contains(l, "Error"@) || contains(l, "ERROR"@) || contains(l, "warn"@)
        || contains(l, "Warn"@) || contains(l, "WARN"@) || contains(l, "panic"@) || contains(
        l,
        "fail"@,
    ) || contains(l, "FAIL"@)
}

/// The lines whose priority is `want`, in their original order.
pub open spec fn lines_with_priority(ls: Seq<Seq<char>>, want: bool) -> Seq<Seq<char>>
    decreases ls.len(),
{
    if ls.len() == 0 {
        seq![]
    } else {
        let rest = lines_with_priority(ls.drop_last(), want);
        if is_priority_line(ls.last()) == want {
            rest.push(ls.last())
        } else {
            rest
        }
    }
}

/// Priority lines first, then the others, cut at the budget
/// `max_tokens - 5`, with a note of how many lines are shown.
pub open spec fn rule_based_text(text: Seq<char>, max_tokens: nat) -> Seq<char> {
    let ls = lines(text);
    let ordered = lines_with_priority(ls, true) + lines_with_priority(ls, false);
    let k = greedy(line_tokens(ordered), sat_sub(max_tokens as int, 5));
    join(ordered.take(k as int), "\n"@) + if k < ls.len() {
        "\n... ("@ + dec(k) + " of "@ + dec(ls.len()) + " lines shown)"@
    } else {
        seq![]
    }
}

/// The compaction that a strategy produces.
pub open spec fn compacted_text(
    text: Seq<char>,
    max_tokens: nat,
    strategy: CompactionStrategy,
) -> Seq<char> {
    match strategy {
        CompactionStrategy::HeadTail => head_tail_text(text, max_tokens),
        CompactionStrategy::HeadOnly => head_only_text(text, max_tokens),
        CompactionStrategy::RuleBased => rule_based_text(text, max_tokens),
    }
}

// ------------------------------------------------------------------
// Lemmas
// ------------------------------------------------------------------

proof fn lemma_greedy_le(ts: Seq<nat>, budget: nat)
    ensures
        greedy(ts, budget) <= ts.len(),
        greedy_used(ts, budget) <= budget,
    decreases ts.len(),
{
    if ts.len() > 0 && ts[0] <= budget {
        lemma_greedy_le(ts.drop_first(), (budget - ts[0]) as nat);
    }
}

proof fn lemma_greedy_back_le(ts: Seq<nat>, budget: nat)
    ensures
        greedy_back(ts, budget) <= ts.len(),
    decreases ts.len(),
{
    if ts.len() > 0 && ts.last() <= budget {
        lemma_greedy_back_le(ts.drop_last(), (budget - ts.last()) as nat);
    }
}

proof fn lemma_lines_with_priority_len(ls: Seq<Seq<char>>)
    ensures
        lines_with_priority(ls, true).len() + lines_with_priority(ls, false).len() == ls.len(),
    decreases ls.len(),
{
    if ls.len() > 0 {
        lemma_lines_with_priority_len(ls.drop_last());
    }
}

// ------------------------------------------------------------------
// Laws of compaction
// ------------------------------------------------------------------

/// The sum of token counts.
pub open spec fn sum(ts: Seq<nat>) -> nat
    decreases ts.len(),
{
    if ts.len() == 0 {
        0
    } else {
        ts[0] + sum(ts.drop_first())
    }
}

proof fn lemma_sum_push(ts: Seq<nat>, x: nat)
    ensures
        sum(ts.push(x)) == sum(ts) + x,
    decreases ts.len(),
{
    if ts.len() > 0 {
        lemma_sum_push(ts.drop_first(), x);
        assert(ts.push(x).drop_first() =~= ts.drop_first().push(x));
        assert(ts.push(x)[0] == ts[0]);
    } else {
        assert(ts.push(x).drop_first() =~= Seq::<nat>::empty());
        assert(ts.push(x)[0] == x);
        assert(sum(Seq::<nat>::empty()) == 0);
    }
}

/// The lines that greedy selection keeps cost at most the budget, and the
/// first line it leaves out would not have fit.
pub proof fn kept_head_fits(ts: Seq<nat>, budget: nat)
    ensures
        greedy(ts, budget) <= ts.len(),
        sum(ts.take(greedy(ts, budget) as int)) == greedy_used(ts, budget),
        greedy_used(ts, budget) <= budget,
        greedy(ts, budget) < ts.len() ==> greedy_used(ts, budget) + ts[greedy(ts, budget) as int]
            > budget,
    decreases ts.len(),
{
    lemma_greedy_le(ts, budget);
    if ts.len() > 0 && ts[0] <= budget {
        let rest = ts.drop_first();
        kept_head_fits(rest, (budget - ts[0]) as nat);
        let k = greedy(ts, budget);
        assert(ts.take(k as int).drop_first() =~= rest.take((k - 1) as int));
        if k < ts.len() {
            assert(ts[k as int] == rest[(k - 1) as int]);
        }
    } else {
        assert(ts.take(0) =~= Seq::<nat>::empty());
    }
}

/// The lines that selection from the end keeps cost at most the budget.
pub proof fn kept_tail_fits(ts: Seq<nat>, budget: nat)
    ensures
        greedy_back(ts, budget) <= ts.len(),
        sum(ts.subrange(ts.len() - greedy_back(ts, budget), ts.len() as int)) <= budget,
    decreases ts.len(),
{
    lemma_greedy_back_le(ts, budget);
    let n = ts.len() as int;
    let m = greedy_back(ts, budget);
    if ts.len() > 0 && ts.last() <= budget {
        let rest = ts.drop_last();
        kept_tail_fits(rest, (budget - ts.last()) as nat);
        let sub = rest.subrange((n - 1) - (m - 1), n - 1);
        assert(ts.subrange(n - m, n) =~= sub.push(ts.last()));
        lemma_sum_push(sub, ts.last());
    } else {
        assert(ts.subrange(n - m, n) =~= Seq::<nat>::empty());
    }
}

/// Whether a line mentions an error, a warning, a panic or a failure, by one
/// of the words `error`, `Error`, `ERROR`, `warn`, `Warn`, `WARN`, `panic`,
/// `fail`, `FAIL`.
pub open spec fn mentions_trouble(l: Seq<char>) -> bool {
    contains(l, "error"@) || contains(l, "Error"@) || contains(l, "ERROR"@) || contains(l, "warn"@)
        || contains(l, "Warn"@) || contains(l, "WARN"@) || contains(l, "panic"@) || contains(l, "fail"@)
        || contains(l, "FAIL"@)
}

proof fn lemma_priority_filter(ls: Seq<Seq<char>>)
    ensures
        lines_with_priority(ls, true) == ls.filter(|l: Seq<char>| mentions_trouble(l)),
        lines_with_priority(ls, false) == ls.filter(|l: Seq<char>| !mentions_trouble(l)),
    decreases ls.len(),
{
    reveal(Seq::filter);
    if ls.len() > 0 {
        lemma_priority_filter(ls.drop_last());
    }
}

/// Rule-based compaction keeps a prefix of the text's lines reordered so
/// that every line mentioning trouble (see [`mentions_trouble`]) comes first,
/// in text order, followed by the other lines in text order; when lines are
/// left out it says how many of the lines are shown.
pub proof fn rule_based_puts_trouble_first(text: Seq<char>, max_tokens: nat) -> (kept: Seq<Seq<char>>)
    ensures
        kept.len() <= lines(text).len(),
        kept == (lines(text).filter(|l: Seq<char>| mentions_trouble(l)) + lines(text).filter(
            |l: Seq<char>| !mentions_trouble(l),
        )).take(kept.len() as int),
        rule_based_text(text, max_tokens) == join(kept, "\n"@) + if kept.len() < lines(text).len() {
            "\n... ("@ + dec(kept.len()) + " of "@ + dec(lines(text).len()) + " lines shown)"@
        } else {
            seq![]
        },
{
    let ls = lines(text);
    lemma_priority_filter(ls);
    lemma_lines_with_priority_len(ls);
    let ordered = lines_with_priority(ls, true) + lines_with_priority(ls, false);
    let k = greedy(line_tokens(ordered), sat_sub(max_tokens as int, 5));
    lemma_greedy_le(line_tokens(ordered), sat_sub(max_tokens as int, 5));
    let kept = ordered.take(k as int);
    assert(kept.len() == k);
    kept
}

/// Head-tail compaction of more than three lines keeps head lines that cost
/// at most three fifths of the usable budget (`max_tokens - 5`) and tail
/// lines that cost at most the rest of it.
pub proof fn head_tail_keeps_lines_within_budget(text: Seq<char>, max_tokens: nat)
    requires
        lines(text).len() > 3,
    ensures
        ({
            let ts = line_tokens(lines(text));
            let usable = sat_sub(max_tokens as int, 5);
            let hb = head_share(usable);
            let k = greedy(ts, hb);
            let tb = tail_share(usable) + (hb - greedy_used(ts, hb));
            let m = greedy_back(ts, tb as nat);
            &&& sum(ts.take(k as int)) <= hb
            &&& sum(ts.take(k as int)) + sum(ts.subrange(ts.len() - m, ts.len() as int)) <= usable
        }),
{
    let ts = line_tokens(lines(text));
    let usable = sat_sub(max_tokens as int, 5);
    let hb = head_share(usable);
    kept_head_fits(ts, hb);
    let tb = tail_share(usable) + (hb - greedy_used(ts, hb));
    kept_tail_fits(ts, tb as nat);
    lemma_shares(usable);
}

// ------------------------------------------------------------------
// Executable code
// ------------------------------------------------------------------

/// Token counts of each string.
fn count_each(ls: &Vec<String>) -> (r: Vec<usize>)
    ensures
        r@.len() == ls@.len(),
        forall|i: int| 0 <= i < ls@.len() ==> r@[i] as nat == token_count(ls@[i]@),
{
    let mut r: Vec<usize> = Vec::new();
    let mut i: usize = 0;
    while i < ls.len()
        invariant
            i <= ls@.len(),
            r@.len() == i,
            forall|k: int| 0 <= k < i ==> r@[k] as nat == token_count(ls@[k]@),
        decreases ls.len() - i,
    {
        r.push(count_tokens(ls[i].as_str()));
        i += 1;
    }
    r
}

/// The token counts as naturals.
pub open spec fn nats(v: Seq<usize>) -> Seq<nat> {
    v.map_values(|x: usize| x as nat)
}

/// Greedy prefix: how many leading counts fit `budget`, and the tokens they use.
fn take_prefix(ts: &Vec<usize>, budget: usize) -> (r: (usize, usize))
    ensures
        r.0 as nat == greedy(nats(ts@), budget as nat),
        r.1 as nat == greedy_used(nats(ts@), budget as nat),
        r.1 <= budget,
{
    let ghost s = nats(ts@);
    let mut i: usize = 0;
    let mut used: usize = 0;
    assert(s.subrange(0, s.len() as int) =~= s);
    while i < ts.len()
        invariant
            i <= ts@.len(),
            s == nats(ts@),
            used <= budget,
            greedy(s, budget as nat) == i + greedy(s.subrange(i as int, s.len() as int), (budget - used) as nat),
            greedy_used(s, budget as nat) == used + greedy_used(s.subrange(i as int, s.len() as int), (budget - used) as nat),
        decreases ts.len() - i,
    {
        let t = ts[i];
        let ghost rest = s.subrange(i as int, s.len() as int);
        assert(rest[0] == t as nat);
        if t > budget - used {
            return (i, used);
        }
        assert(rest.drop_first() =~= s.subrange(i + 1, s.len() as int));
        used = used + t;
        i += 1;
    }
    assert(s.subrange(i as int, s.len() as int) =~= Seq::<nat>::empty());
    (i, used)
}

/// Greedy suffix: how many trailing counts fit `budget`.
fn take_suffix(ts: &Vec<usize>, budget: usize) -> (r: usize)
    ensures
        r as nat == greedy_back(nats(ts@), budget as nat),
{
    let ghost s = nats(ts@);
    let n = ts.len();
    let mut j: usize = 0;
    let mut used: usize = 0;
    assert(s.subrange(0, n as int) =~= s);
    while j < n
        invariant
            n == ts@.len(),
            j <= n,
            s == nats(ts@),
            used <= budget,
            greedy_back(s, budget as nat) == j + greedy_back(s.subrange(0, n - j), (budget - used) as nat),
        decreases n - j,
    {
        let t = ts[n - 1 - j];
        let ghost rest = s.subrange(0, n - j);
        assert(rest.last() == t as nat);
        if t > budget - used {
            return j;
        }
        assert(rest.drop_last() =~= s.subrange(0, n - (j + 1)));
        used = used + t;
        j += 1;
    }
    assert(s.subrange(0, n - j) =~= Seq::<nat>::empty());
    j
}

proof fn lemma_nats_line_tokens(ls: Seq<String>, ts: Seq<usize>)
    requires
        ts.len() == ls.len(),
        forall|i: int| 0 <= i < ls.len() ==> ts[i] as nat == token_count(ls[i]@),
    ensures
        nats(ts) == line_tokens(views(ls)),
{
    assert(nats(ts) =~= line_tokens(views(ls)));
}

/// Keeps only the beginning of the text up to the budget.
pub fn compact_head_only(text: &str, max_tokens: usize) -> (r: String)
    ensures
        r@ == head_only_text(text@, max_tokens as nat),
{
    let ls = split_lines(text);
    let ts = count_each(&ls);
    proof {
        lemma_nats_line_tokens(ls@, ts@);
    }
    let budget = if max_tokens >= 5 { max_tokens - 5 } else { 0 };
    let (k, _) = take_prefix(&ts, budget);
    proof {
        lemma_greedy_le(nats(ts@), budget as nat);
        assert(views(ls@).subrange(0, k as int) =~= lines(text@).take(k as int));
    }
    let mut result = join_range(&ls, 0, k, "\n");
    let omitted = ls.len() - k;
    if omitted > 0 {
        result.append("\n... (");
        let d = dec_usize(omitted);
        result.append(d.as_str());
        result.append(" more lines truncated)");
    }
    proof {
        assert(result@ =~= head_only_text(text@, max_tokens as nat));
    }
    result
}

proof fn lemma_shares(usable: nat)
    ensures
        head_share(usable) == usable / 5 * 3 + (usable % 5) * 3 / 5,
        tail_share(usable) == usable / 5 * 2 + (usable % 5) * 2 / 5,
        head_share(usable) + tail_share(usable) <= usable,
{
    assert(usable == 5 * (usable / 5) + usable % 5) by (nonlinear_arith);
    assert(usable * 3 == 15 * (usable / 5) + 3 * (usable % 5)) by (nonlinear_arith)
        requires usable == 5 * (usable / 5) + usable % 5;
    assert(usable * 2 == 10 * (usable / 5) + 2 * (usable % 5)) by (nonlinear_arith)
        requires usable == 5 * (usable / 5) + usable % 5;
    assert((15 * (usable / 5) + 3 * (usable % 5)) / 5 == usable / 5 * 3 + (usable % 5) * 3 / 5)
        by (nonlinear_arith);
    assert((10 * (usable / 5) + 2 * (usable % 5)) / 5 == usable / 5 * 2 + (usable % 5) * 2 / 5)
        by (nonlinear_arith);
}

/// Keeps the first ~60% and last ~40% of the usable budget, with an elision
/// marker; unused head tokens go to the tail.
pub fn compact_head_tail(text: &str, max_tokens: usize) -> (r: String)
    ensures
        r@ == head_tail_text(text@, max_tokens as nat),
{
    let ls = split_lines(text);
    if ls.len() <= 3 {
        return compact_head_only(text, max_tokens);
    }
    let ts = count_each(&ls);
    proof {
        lemma_nats_line_tokens(ls@, ts@);
    }
    let usable = if max_tokens >= 5 { max_tokens - 5 } else { 0 };
    proof {
        lemma_shares(usable as nat);
    }
    let head_budget = usable / 5 * 3 + (usable % 5) * 3 / 5;
    let (k, head_tokens) = take_prefix(&ts, head_budget);
    let tail_budget = usable / 5 * 2 + (usable % 5) * 2 / 5 + (head_budget - head_tokens);
    let m = take_suffix(&ts, tail_budget);
    proof {
        lemma_greedy_le(nats(ts@), head_budget as nat);
        lemma_greedy_back_le(nats(ts@), tail_budget as nat);
    }
    let n = ls.len();
    let omitted = if m <= n - k { n - k - m } else { 0 };
    let mut result = join_range(&ls, 0, k, "\n");
    if omitted > 0 {
        result.append("\n... (");
        let d = dec_usize(omitted);
        result.append(d.as_str());
        result.append(" lines omitted) ...\n");
    }
    let tail = join_range(&ls, n - m, n, "\n");
    result.append(tail.as_str());
    proof {
        assert(views(ls@).subrange(0, k as int) =~= lines(text@).take(k as int));
        assert(result@ =~= head_tail_text(text@, max_tokens as nat));
    }
    result
}

/// Whether a line mentions an error, warning, panic or failure.
fn is_priority(l: &str) -> (r: bool)
    ensures
        r == is_priority_line(l@),
{
    contains_str(l, "error") || contains_str(l, "Error") || contains_str(l, "ERROR")
        || contains_str(l, "warn") || contains_str(l, "Warn") || contains_str(l, "WARN")
        || contains_str(l, "panic") || contains_str(l, "fail") || contains_str(l, "FAIL")
}

/// Rule-based compaction: lines with errors and warnings first.
pub fn compact_rule_based(text: &str, max_tokens: usize) -> (r: String)
    ensures
        r@ == rule_based_text(text@, max_tokens as nat),
{
    let ls = split_lines(text);
    let mut ordered: Vec<String> = Vec::new();
    let mut others: Vec<String> = Vec::new();
    let mut i: usize = 0;
    while i < ls.len()
        invariant
            i <= ls@.len(),
            views(ordered@) == lines_with_priority(views(ls@).take(i as int), true),
            views(others@) == lines_with_priority(views(ls@).take(i as int), false),
        decreases ls.len() - i,
    {
        assert(views(ls@).take((i + 1) as int).drop_last() =~= views(ls@).take(i as int));
        if is_priority(ls[i].as_str()) {
            ordered.push(ls[i].clone());
            assert(views(ordered@) =~= lines_with_priority(views(ls@).take(i as int), true).push(ls@[i as int]@));
        } else {
            others.push(ls[i].clone());
            assert(views(others@) =~= lines_with_priority(views(ls@).take(i as int), false).push(ls@[i as int]@));
        }
        i += 1;
    }
    assert(views(ls@).take(ls@.len() as int) =~= views(ls@));
    let ghost pri = views(ordered@);
    let mut j: usize = 0;
    while j < others.len()
        invariant
            j <= others@.len(),
            views(ordered@) == pri + views(others@).take(j as int),
        decreases others.len() - j,
    {
        let ghost before = views(ordered@);
        ordered.push(others[j].clone());
        assert(views(ordered@) =~= before.push(others@[j as int]@));
        assert(views(others@).take((j + 1) as int) =~= views(others@).take(j as int).push(others@[j as int]@));
        assert(views(ordered@) =~= pri + views(others@).take((j + 1) as int));
        j += 1;
    }
    assert(views(others@).take(others@.len() as int) =~= views(others@));
    proof {
        lemma_lines_with_priority_len(views(ls@));
    }
    let ts = count_each(&ordered);
    proof {
        lemma_nats_line_tokens(ordered@, ts@);
    }
    let budget = if max_tokens >= 5 { max_tokens - 5 } else { 0 };
    let (k, _) = take_prefix(&ts, budget);
    proof {
        lemma_greedy_le(nats(ts@), budget as nat);
    }
    let total = ls.len();
    let mut result = join_range(&ordered, 0, k, "\n");
    if k < total {
        result.append("\n... (");
        let a = dec_usize(k);
        result.append(a.as_str());
        result.append(" of ");
        let b = dec_usize(total);
        result.append(b.as_str());
        result.append(" lines shown)");
    }
    proof {
        assert(views(ordered@).subrange(0, k as int) =~= views(ordered@).take(k as int));
        assert(result@ =~= rule_based_text(text@, max_tokens as nat));
    }
    result
}

/// Applies a token budget to plain text.
///
/// Text within the budget is returned unchanged; longer text is compacted
/// with the given strategy and reported as truncated.
pub fn apply_budget_to_text(text: &str, max_tokens: usize, strategy: CompactionStrategy) -> (r:
    BudgetedOutput)
    ensures
        r.original_tokens as nat == token_count(text@),
        r.truncated == (token_count(text@) > max_tokens),
        !r.truncated ==> r.content@ == text@,
        r.truncated ==> r.content@ == compacted_text(text@, max_tokens as nat, strategy),
        r.tokens as nat == token_count(r.content@),
{
    let original_tokens = count_tokens(text);
    if original_tokens <= max_tokens {
        let mut content = String::new();
        content.append(text);
        assert(content@ =~= text@);
        return BudgetedOutput {
            content,
            tokens: original_tokens,
            truncated: false,
            original_tokens,
        };
    }
    let compacted = match strategy {
        CompactionStrategy::HeadTail => compact_head_tail(text, max_tokens),
        CompactionStrategy::HeadOnly => compact_head_only(text, max_tokens),
        CompactionStrategy::RuleBased => compact_rule_based(text, max_tokens),
    };
    let tokens = count_tokens(compacted.as_str());
    BudgetedOutput { content: compacted, tokens, truncated: true, original_tokens }
}

} // verus!
