//! Log normalization: turning a process's persisted stdout and stderr into an
//! ordered, adapter-agnostic conversation.
//!
//! The agent family writes one JSON object per line (see [`crate::json`]);
//! setup scripts write plain text. Stderr arrives framed by the boundary
//! marker, one error entry per chunk. Entries are sorted by timestamp:
//! entries without a timestamp come first, timestamped entries ascend, and
//! ties keep their insertion order.

use vstd::prelude::*;

verus! {

use crate::model::{opt_view, text_of, ExecutionProcessType};
use crate::text::{spec_blank, spec_trim, lex_le, spec_split};
use crate::json::{parse_json_object, spec_lookup};
use crate::store::boundary_marker;
use vstd::multiset::Multiset;

/// What a tool-use entry did.
#[derive(Clone, Debug)]
pub enum ActionType {
    /// The agent presented a plan for approval.
    PlanPresentation { plan: String },
    /// Any other tool action, by name.
    Other { action: String },
}

/// The kind of a normalized entry.
#[derive(Clone, Debug)]
pub enum NormalizedEntryType {
    UserMessage,
    AssistantMessage,
    SystemMessage,
    ErrorMessage,
    ToolUse { action_type: ActionType },
}

/// One normalized conversation entry.
#[derive(Clone, Debug)]
pub struct NormalizedEntry {
    /// RFC 3339 timestamp, when the log line carried one.
    pub timestamp: Option<String>,
    pub entry_type: NormalizedEntryType,
    pub content: String,
    pub metadata: Option<String>,
}

/// The normalized view of one process's output.
#[derive(Clone, Debug)]
pub struct NormalizedConversation {
    pub entries: Vec<NormalizedEntry>,
    pub session_id: Option<String>,
    pub executor_type: String,
    pub prompt: Option<String>,
    pub summary: Option<String>,
}

/// Mathematical view of an [`ActionType`].
#[verifier::ext_equal]
pub enum ActionTypeView {
    PlanPresentation { plan: Seq<char> },
    Other { action: Seq<char> },
}

impl View for ActionType {
    type V = ActionTypeView;

    open spec fn view(&self) -> ActionTypeView {
        match self {
            ActionType::PlanPresentation { plan } => ActionTypeView::PlanPresentation {
                plan: plan@,
            },
            ActionType::Other { action } => ActionTypeView::Other { action: action@ },
        }
    }
}

/// Mathematical view of a [`NormalizedEntryType`].
#[verifier::ext_equal]
pub enum NormalizedEntryTypeView {
    UserMessage,
    AssistantMessage,
    SystemMessage,
    ErrorMessage,
    ToolUse { action_type: ActionTypeView },
}

impl View for NormalizedEntryType {
    type V = NormalizedEntryTypeView;

    open spec fn view(&self) -> NormalizedEntryTypeView {
        match self {
            NormalizedEntryType::UserMessage => NormalizedEntryTypeView::UserMessage,
            NormalizedEntryType::AssistantMessage => NormalizedEntryTypeView::AssistantMessage,
            NormalizedEntryType::SystemMessage => NormalizedEntryTypeView::SystemMessage,
            NormalizedEntryType::ErrorMessage => NormalizedEntryTypeView::ErrorMessage,
            NormalizedEntryType::ToolUse { action_type } => NormalizedEntryTypeView::ToolUse {
                action_type: action_type@,
            },
        }
    }
}

/// Mathematical view of a [`NormalizedEntry`].
#[verifier::ext_equal]
pub struct NormalizedEntryView {
    pub timestamp: Option<Seq<char>>,
    pub entry_type: NormalizedEntryTypeView,
    pub content: Seq<char>,
    pub metadata: Option<Seq<char>>,
}

impl View for NormalizedEntry {
    type V = NormalizedEntryView;

    open spec fn view(&self) -> NormalizedEntryView {
        NormalizedEntryView {
            timestamp: opt_view(self.timestamp),
            entry_type: self.entry_type@,
            content: self.content@,
            metadata: opt_view(self.metadata),
        }
    }
}

/// Mathematical view of a [`NormalizedConversation`].
#[verifier::ext_equal]
pub struct NormalizedConversationView {
    pub entries: Seq<NormalizedEntryView>,
    pub session_id: Option<Seq<char>>,
    pub executor_type: Seq<char>,
    pub prompt: Option<Seq<char>>,
    pub summary: Option<Seq<char>>,
}

impl View for NormalizedConversation {
    type V = NormalizedConversationView;

    open spec fn view(&self) -> NormalizedConversationView {
        NormalizedConversationView {
            entries: self.entries@.map_values(|e: NormalizedEntry| e@),
            session_id: opt_view(self.session_id),
            executor_type: self.executor_type@,
            prompt: opt_view(self.prompt),
            summary: opt_view(self.summary),
        }
    }
}

/// A tool-use path is shown relative to the canonical working directory: a
/// leading `wd + "/"` is stripped, anything else is left as it came.
pub open spec fn rewrite_path(content: Seq<char>, wd: Seq<char>) -> Seq<char> {
    let pref = wd + "/"@;
    if wd.len() > 0 && pref.len() <= content.len() && content.take(pref.len() as int) == pref {
        content.skip(pref.len() as int)
    } else {
        content
    }
}

/// The entry an agent-dialect log line denotes, if any: the line must parse
/// as a flat JSON object whose `type` is a known kind. Unknown kinds and
/// lines outside the grammar yield nothing and are skipped.
pub open spec fn entry_of_line(line: Seq<char>, wd: Seq<char>) -> Option<NormalizedEntryView> {
    match parse_json_object(line) {
        Option::Some(kvs) => {
            let ty = spec_lookup(kvs, "type"@);
            let content = text_of(spec_lookup(kvs, "content"@));
            let ts = spec_lookup(kvs, "timestamp"@);
            if ty == Option::Some("user"@) {
                Option::Some(
                    NormalizedEntryView {
                        timestamp: ts,
                        entry_type: NormalizedEntryTypeView::UserMessage,
                        content,
                        metadata: Option::None,
                    },
                )
            } else if ty == Option::Some("assistant"@) {
                Option::Some(
                    NormalizedEntryView {
                        timestamp: ts,
                        entry_type: NormalizedEntryTypeView::AssistantMessage,
                        content,
                        metadata: Option::None,
                    },
                )
            } else if ty == Option::Some("system"@) {
                Option::Some(
                    NormalizedEntryView {
                        timestamp: ts,
                        entry_type: NormalizedEntryTypeView::SystemMessage,
                        content,
                        metadata: Option::None,
                    },
                )
            } else if ty == Option::Some("error"@) {
                Option::Some(
                    NormalizedEntryView {
                        timestamp: ts,
                        entry_type: NormalizedEntryTypeView::ErrorMessage,
                        content,
                        metadata: Option::None,
                    },
                )
            } else if ty == Option::Some("tool_use"@) {
                let action = text_of(spec_lookup(kvs, "action"@));
                let action_type = if action == "plan_presentation"@ {
                    ActionTypeView::PlanPresentation {
                        plan: text_of(spec_lookup(kvs, "plan"@)),
                    }
                } else {
                    ActionTypeView::Other { action }
                };
                Option::Some(
                    NormalizedEntryView {
                        timestamp: ts,
                        entry_type: NormalizedEntryTypeView::ToolUse { action_type },
                        content: rewrite_path(content, wd),
                        metadata: Option::None,
                    },
                )
            } else {
                Option::None
            }
        },
        Option::None => Option::None,
    }
}

/// The entries of the agent dialect: one per line that parses, in line order.
pub open spec fn agent_entries(lines: Seq<Seq<char>>, wd: Seq<char>) -> Seq<NormalizedEntryView>
    decreases lines.len(),
{
    if lines.len() == 0 {
        Seq::empty()
    } else {
        let rest = agent_entries(lines.skip(1), wd);
        match entry_of_line(lines[0], wd) {
            Option::Some(e) => seq![e] + rest,
            Option::None => rest,
        }
    }
}

/// Agent entries grow on the right, line by line.
proof fn lemma_agent_entries_push(lines: Seq<Seq<char>>, wd: Seq<char>, l: Seq<char>)
    ensures
        agent_entries(lines.push(l), wd) == match entry_of_line(l, wd) {
            Option::Some(e) => agent_entries(lines, wd).push(e),
            Option::None => agent_entries(lines, wd),
        },
    decreases lines.len(),
{
    let s = lines.push(l);
    if lines.len() == 0 {
        assert(s[0] == l);
        assert(s.skip(1) =~~= Seq::<Seq<char>>::empty());
        assert(agent_entries(s.skip(1), wd) =~= Seq::<NormalizedEntryView>::empty());
        assert(agent_entries(lines, wd) =~= Seq::<NormalizedEntryView>::empty());
        match entry_of_line(l, wd) {
            Option::Some(e) => {
                assert(agent_entries(s, wd) =~= agent_entries(lines, wd).push(e));
            },
            Option::None => {},
        }
    } else {
        assert(s.skip(1) =~~= lines.skip(1).push(l));
        lemma_agent_entries_push(lines.skip(1), wd, l);
        assert(s[0] == lines[0]);
        match entry_of_line(l, wd) {
            Option::Some(e) => {
                assert(agent_entries(s, wd) =~= agent_entries(lines, wd).push(e));
            },
            Option::None => {
                assert(agent_entries(s, wd) =~= agent_entries(lines, wd));
            },
        }
    }
}

/// The entries of the setup-script dialect: each non-blank line, trimmed,
/// becomes an untimestamped system message.
pub open spec fn setup_entries(lines: Seq<Seq<char>>) -> Seq<NormalizedEntryView>
    decreases lines.len(),
{
    if lines.len() == 0 {
        Seq::empty()
    } else {
        let rest = setup_entries(lines.skip(1));
        let t = spec_trim(lines[0]);
        if t.len() > 0 {
            seq![
                NormalizedEntryView {
                    timestamp: Option::None,
                    entry_type: NormalizedEntryTypeView::SystemMessage,
                    content: t,
                    metadata: Option::None,
                },
            ] + rest
        } else {
            rest
        }
    }
}

/// Setup entries grow on the right, line by line.
proof fn lemma_setup_entries_push(lines: Seq<Seq<char>>, l: Seq<char>)
    ensures
        setup_entries(lines.push(l)) == if spec_trim(l).len() > 0 {
            setup_entries(lines).push(
                NormalizedEntryView {
                    timestamp: Option::None,
                    entry_type: NormalizedEntryTypeView::SystemMessage,
                    content: spec_trim(l),
                    metadata: Option::None,
                },
            )
        } else {
            setup_entries(lines)
        },
    decreases lines.len(),
{
    let s = lines.push(l);
    if lines.len() == 0 {
        assert(s[0] == l);
        assert(s.skip(1) =~~= Seq::<Seq<char>>::empty());
        assert(setup_entries(s.skip(1)) =~= Seq::<NormalizedEntryView>::empty());
        assert(setup_entries(lines) =~= Seq::<NormalizedEntryView>::empty());
        if spec_trim(l).len() > 0 {
            assert(setup_entries(s) =~= setup_entries(lines).push(
                NormalizedEntryView {
                    timestamp: Option::None,
                    entry_type: NormalizedEntryTypeView::SystemMessage,
                    content: spec_trim(l),
                    metadata: Option::None,
                },
            ));
        }
    } else {
        assert(s.skip(1) =~~= lines.skip(1).push(l));
        lemma_setup_entries_push(lines.skip(1), l);
        assert(s[0] == lines[0]);
        if spec_trim(l).len() > 0 {
            assert(setup_entries(s) =~= setup_entries(lines).push(
                NormalizedEntryView {
                    timestamp: Option::None,
                    entry_type: NormalizedEntryTypeView::SystemMessage,
                    content: spec_trim(l),
                    metadata: Option::None,
                },
            ));
        } else {
            assert(setup_entries(s) =~= setup_entries(lines));
        }
    }
}

/// The error entries of framed stderr chunks: each non-blank chunk, trimmed,
/// becomes an error message stamped with the moment of normalization.
pub open spec fn err_entries(chunks: Seq<Seq<char>>, now: Seq<char>) -> Seq<NormalizedEntryView>
    decreases chunks.len(),
{
    if chunks.len() == 0 {
        Seq::empty()
    } else {
        let rest = err_entries(chunks.skip(1), now);
        let t = spec_trim(chunks[0]);
        if t.len() > 0 {
            seq![
                NormalizedEntryView {
                    timestamp: Option::Some(now),
                    entry_type: NormalizedEntryTypeView::ErrorMessage,
                    content: t,
                    metadata: Option::None,
                },
            ] + rest
        } else {
            rest
        }
    }
}

/// Error entries grow on the right, chunk by chunk.
proof fn lemma_err_entries_push(chunks: Seq<Seq<char>>, now: Seq<char>, c: Seq<char>)
    ensures
        err_entries(chunks.push(c), now) == if spec_trim(c).len() > 0 {
            err_entries(chunks, now).push(
                NormalizedEntryView {
                    timestamp: Option::Some(now),
                    entry_type: NormalizedEntryTypeView::ErrorMessage,
                    content: spec_trim(c),
                    metadata: Option::None,
                },
            )
        } else {
            err_entries(chunks, now)
        },
    decreases chunks.len(),
{
    let s = chunks.push(c);
    if chunks.len() == 0 {
        assert(s[0] == c);
        assert(s.skip(1) =~~= Seq::<Seq<char>>::empty());
        assert(err_entries(s.skip(1), now) =~= Seq::<NormalizedEntryView>::empty());
        assert(err_entries(chunks, now) =~= Seq::<NormalizedEntryView>::empty());
        if spec_trim(c).len() > 0 {
            assert(err_entries(s, now) =~= err_entries(chunks, now).push(
                NormalizedEntryView {
                    timestamp: Option::Some(now),
                    entry_type: NormalizedEntryTypeView::ErrorMessage,
                    content: spec_trim(c),
                    metadata: Option::None,
                },
            ));
        }
    } else {
        assert(s.skip(1) =~~= chunks.skip(1).push(c));
        lemma_err_entries_push(chunks.skip(1), now, c);
        assert(s[0] == chunks[0]);
        if spec_trim(c).len() > 0 {
            assert(err_entries(s, now) =~= err_entries(chunks, now).push(
                NormalizedEntryView {
                    timestamp: Option::Some(now),
                    entry_type: NormalizedEntryTypeView::ErrorMessage,
                    content: spec_trim(c),
                    metadata: Option::None,
                },
            ));
        } else {
            assert(err_entries(s, now) =~= err_entries(chunks, now));
        }
    }
}

/// The stderr-derived entries of a process: the persisted text, trimmed, is
/// split on the boundary marker (which also strips any stray inline
/// occurrence), and each non-blank chunk becomes a timestamped error entry.
pub open spec fn stderr_entries(stderr: Seq<char>, now: Seq<char>) -> Seq<NormalizedEntryView> {
    err_entries(spec_split(spec_trim(stderr), boundary_marker()), now)
}

/// The stdout-derived entries of the agent dialect.
pub open spec fn agent_stdout_entries(stdout: Seq<char>, wd: Seq<char>) -> Seq<
    NormalizedEntryView,
> {
    agent_entries(spec_split(stdout, "\n"@), wd)
}

/// The stdout-derived entries of the setup-script dialect.
pub open spec fn setup_stdout_entries(stdout: Seq<char>) -> Seq<NormalizedEntryView> {
    setup_entries(spec_split(stdout, "\n"@))
}

/// The order entries are sorted by: an absent timestamp comes before every
/// present one; present timestamps are compared lexicographically, which for
/// RFC 3339 strings of one shape is chronological.
pub open spec fn ts_le(a: Option<Seq<char>>, b: Option<Seq<char>>) -> bool {
    match (a, b) {
        (Option::None, _) => true,
        (Option::Some(_), Option::None) => false,
        (Option::Some(x), Option::Some(y)) => lex_le(x, y),
    }
}

/// One entry sorts at or before another.
pub open spec fn entry_le(a: NormalizedEntryView, b: NormalizedEntryView) -> bool {
    ts_le(a.timestamp, b.timestamp)
}

/// `ts_le` is total.
pub proof fn lemma_ts_le_total(a: Option<Seq<char>>, b: Option<Seq<char>>)
    ensures
        ts_le(a, b) || ts_le(b, a),
{
    match (a, b) {
        (Option::Some(x), Option::Some(y)) => crate::text::lemma_lex_total(x, y),
        _ => {},
    }
}

/// `ts_le` is reflexive.
pub proof fn lemma_ts_le_refl(a: Option<Seq<char>>)
    ensures
        ts_le(a, a),
{
    match a {
        Option::Some(x) => crate::text::lemma_lex_total(x, x),
        Option::None => {},
    }
}

/// `ts_le` is transitive.
pub proof fn lemma_ts_le_trans(a: Option<Seq<char>>, b: Option<Seq<char>>, c: Option<Seq<char>>)
    requires
        ts_le(a, b),
        ts_le(b, c),
    ensures
        ts_le(a, c),
{
    match (a, b, c) {
        (Option::Some(x), Option::Some(y), Option::Some(z)) => crate::text::lemma_lex_trans(
            x,
            y,
            z,
        ),
        _ => {},
    }
}

/// Insert an entry into a sorted run: it lands after every entry it does not
/// strictly precede, so later arrivals with equal timestamps stay later.
pub open spec fn spec_insert_entry(s: Seq<NormalizedEntryView>, e: NormalizedEntryView) -> Seq<
    NormalizedEntryView,
>
    decreases s.len(),
{
    if s.len() == 0 {
        seq![e]
    } else if entry_le(s.last(), e) {
        s.push(e)
    } else {
        spec_insert_entry(s.drop_last(), e).push(s.last())
    }
}

/// The stable sort of a run of entries by timestamp.
pub open spec fn spec_sort_entries(s: Seq<NormalizedEntryView>) -> Seq<NormalizedEntryView>
    decreases s.len(),
{
    if s.len() == 0 {
        s
    } else {
        spec_insert_entry(spec_sort_entries(s.drop_last()), s.last())
    }
}

/// A run of entries is sorted by the timestamp order.
pub open spec fn sorted_by_ts(s: Seq<NormalizedEntryView>) -> bool {
    forall|i: int, j: int| 0 <= i < j < s.len() ==> entry_le(s[i], s[j])
}

/// Insertion grows the run by exactly one.
proof fn lemma_insert_entry_len(s: Seq<NormalizedEntryView>, e: NormalizedEntryView)
    ensures
        spec_insert_entry(s, e).len() == s.len() + 1,
    decreases s.len(),
{
    if s.len() > 0 && !entry_le(s.last(), e) {
        lemma_insert_entry_len(s.drop_last(), e);
    }
}

/// Every element of an insertion is the inserted entry or one of the run's.
proof fn lemma_insert_entry_elems(s: Seq<NormalizedEntryView>, e: NormalizedEntryView, i: int)
    requires
        0 <= i < spec_insert_entry(s, e).len(),
    ensures
        spec_insert_entry(s, e)[i] == e || exists|j: int|
            0 <= j < s.len() && spec_insert_entry(s, e)[i] == s[j],
    decreases s.len(),
{
    lemma_insert_entry_len(s, e);
    if s.len() == 0 {
    } else if entry_le(s.last(), e) {
    } else {
        let t = spec_insert_entry(s.drop_last(), e);
        lemma_insert_entry_len(s.drop_last(), e);
        if i < t.len() {
            lemma_insert_entry_elems(s.drop_last(), e, i);
            if t[i] != e {
                let j = choose|j: int| 0 <= j < s.drop_last().len() && t[i] == s.drop_last()[j];
                assert(s.drop_last()[j] == s[j]);
            }
        } else {
            assert(spec_insert_entry(s, e)[i] == s[s.len() - 1]);
        }
    }
}

/// Inserting into a sorted run keeps it sorted.
proof fn lemma_insert_entry_sorted(s: Seq<NormalizedEntryView>, e: NormalizedEntryView)
    requires
        sorted_by_ts(s),
    ensures
        sorted_by_ts(spec_insert_entry(s, e)),
    decreases s.len(),
{
    if s.len() == 0 {
    } else if entry_le(s.last(), e) {
        let r = s.push(e);
        assert forall|i: int, j: int| 0 <= i < j < r.len() implies entry_le(r[i], r[j]) by {
            if j == r.len() - 1 {
                if i < s.len() - 1 {
                    assert(entry_le(s[i], s[s.len() - 1]));
                    lemma_ts_le_trans(s[i].timestamp, s.last().timestamp, e.timestamp);
                }
            }
        }
    } else {
        lemma_ts_le_total(s.last().timestamp, e.timestamp);
        lemma_insert_entry_sorted(s.drop_last(), e);
        let t = spec_insert_entry(s.drop_last(), e);
        lemma_insert_entry_len(s.drop_last(), e);
        let r = t.push(s.last());
        assert forall|i: int, j: int| 0 <= i < j < r.len() implies entry_le(r[i], r[j]) by {
            if j == r.len() - 1 {
                lemma_insert_entry_elems(s.drop_last(), e, i);
                if t[i] == e {
                } else {
                    let k = choose|k: int|
                        0 <= k < s.drop_last().len() && t[i] == s.drop_last()[k];
                    assert(entry_le(s[k], s[s.len() - 1]));
                }
            }
        }
    }
}

/// Law (order): sorting leaves the entries sorted — entries without
/// timestamps first, timestamped entries ascending.
pub proof fn lemma_sort_entries_sorted(s: Seq<NormalizedEntryView>)
    ensures
        sorted_by_ts(spec_sort_entries(s)),
    decreases s.len(),
{
    if s.len() > 0 {
        lemma_sort_entries_sorted(s.drop_last());
        lemma_insert_entry_sorted(spec_sort_entries(s.drop_last()), s.last());
    }
}

/// Inserting adds exactly the inserted entry to the multiset.
proof fn lemma_insert_entry_multiset(s: Seq<NormalizedEntryView>, e: NormalizedEntryView)
    ensures
        spec_insert_entry(s, e).to_multiset() == s.to_multiset().insert(e),
    decreases s.len(),
{
    broadcast use vstd::seq_lib::group_to_multiset_ensures;

    if s.len() == 0 {
        assert(seq![e] =~= Seq::<NormalizedEntryView>::empty().push(e));
        assert(Seq::<NormalizedEntryView>::empty().to_multiset() =~= Multiset::empty());
        assert(spec_insert_entry(s, e).to_multiset() =~= s.to_multiset().insert(e));
    } else if entry_le(s.last(), e) {
        assert(s.push(e).to_multiset() =~= s.to_multiset().insert(e));
    } else {
        lemma_insert_entry_multiset(s.drop_last(), e);
        let t = spec_insert_entry(s.drop_last(), e);
        assert(t.push(s.last()).to_multiset() =~= t.to_multiset().insert(s.last()));
        assert(s.drop_last().push(s.last()) =~= s);
        assert(s.drop_last().push(s.last()).to_multiset() =~= s.drop_last().to_multiset().insert(
            s.last(),
        ));
        assert(t.push(s.last()).to_multiset() =~= s.to_multiset().insert(e));
    }
}

/// Law (permutation): sorting neither drops, adds nor duplicates entries.
pub proof fn lemma_sort_entries_multiset(s: Seq<NormalizedEntryView>)
    ensures
        spec_sort_entries(s).to_multiset() == s.to_multiset(),
    decreases s.len(),
{
    broadcast use vstd::seq_lib::group_to_multiset_ensures;

    if s.len() > 0 {
        lemma_sort_entries_multiset(s.drop_last());
        lemma_insert_entry_multiset(spec_sort_entries(s.drop_last()), s.last());
        assert(s.drop_last().push(s.last()) =~= s);
        assert(s.drop_last().push(s.last()).to_multiset() =~= s.drop_last().to_multiset().insert(
            s.last(),
        ));
    }
}

/// Inserting an entry keeps the subsequence of any fixed timestamp intact,
/// appending the new entry to its own timestamp's subsequence.
proof fn lemma_insert_entry_filter(
    s: Seq<NormalizedEntryView>,
    e: NormalizedEntryView,
    k: Option<Seq<char>>,
)
    ensures
        spec_insert_entry(s, e).filter(|x: NormalizedEntryView| x.timestamp == k) == if e.timestamp
            == k {
            s.filter(|x: NormalizedEntryView| x.timestamp == k).push(e)
        } else {
            s.filter(|x: NormalizedEntryView| x.timestamp == k)
        },
    decreases s.len(),
{
    let pred = |x: NormalizedEntryView| x.timestamp == k;
    if s.len() == 0 {
        assert(seq![e] =~= Seq::<NormalizedEntryView>::empty().push(e));
        crate::store::lemma_filter_push(Seq::<NormalizedEntryView>::empty(), pred, e);
        reveal(Seq::filter);
    } else if entry_le(s.last(), e) {
        crate::store::lemma_filter_push(s, pred, e);
    } else {
        lemma_insert_entry_filter(s.drop_last(), e, k);
        let t = spec_insert_entry(s.drop_last(), e);
        crate::store::lemma_filter_push(t, pred, s.last());
        crate::store::lemma_filter_push(s.drop_last(), pred, s.last());
        assert(s.drop_last().push(s.last()) =~= s);
        if e.timestamp == k && s.last().timestamp == k {
            lemma_ts_le_refl(e.timestamp);
            assert(false);
        }
    }
}

/// Law (stability): for every timestamp, sorting preserves the relative
/// order of the entries carrying it — ties keep insertion order.
pub proof fn lemma_sort_entries_stable(s: Seq<NormalizedEntryView>, k: Option<Seq<char>>)
    ensures
        spec_sort_entries(s).filter(|x: NormalizedEntryView| x.timestamp == k) == s.filter(
            |x: NormalizedEntryView| x.timestamp == k,
        ),
    decreases s.len(),
{
    let pred = |x: NormalizedEntryView| x.timestamp == k;
    if s.len() > 0 {
        lemma_sort_entries_stable(s.drop_last(), k);
        lemma_insert_entry_filter(spec_sort_entries(s.drop_last()), s.last(), k);
        crate::store::lemma_filter_push(s.drop_last(), pred, s.last());
        assert(s.drop_last().push(s.last()) =~= s);
    }
}

/// The adapter kinds the registry resolves.
#[derive(Clone, Copy, Debug, PartialEq, Eq, Structural)]
pub enum ExecutorKind {
    CodingAgent,
    PlanAgent,
    SetupScript,
    Unknown,
}

/// Which adapter an executor-type string names. `coding-agent` is the coding
/// agent, `plan-agent` its plan-presentation dialect; both share the JSON
/// line grammar. Anything else is the opaque fallback, whose normalization
/// is empty.
pub open spec fn resolve_kind(et: Seq<char>) -> ExecutorKind {
    if et == "coding-agent"@ {
        ExecutorKind::CodingAgent
    } else if et == "plan-agent"@ {
        ExecutorKind::PlanAgent
    } else {
        ExecutorKind::Unknown
    }
}

/// Resolve an executor-type string to its adapter kind.
pub fn resolve_executor(et: &str) -> (r: ExecutorKind)
    ensures
        r == resolve_kind(et@),
{
    if crate::text::str_eq(et, "coding-agent") {
        ExecutorKind::CodingAgent
    } else if crate::text::str_eq(et, "plan-agent") {
        ExecutorKind::PlanAgent
    } else {
        ExecutorKind::Unknown
    }
}

/// The stored executor type, or `unknown` when none was recorded.
pub open spec fn or_unknown(et: Option<Seq<char>>) -> Seq<char> {
    match et {
        Option::Some(s) => s,
        Option::None => "unknown"@,
    }
}

/// The prompt of an optional session.
pub open spec fn session_prompt_of(session: Option<&crate::model::ExecutorSession>) -> Option<
    Seq<char>,
> {
    match session {
        Option::Some(s) => s@.prompt,
        Option::None => Option::None,
    }
}

/// The summary of an optional session.
pub open spec fn session_summary_of(session: Option<&crate::model::ExecutorSession>) -> Option<
    Seq<char>,
> {
    match session {
        Option::Some(s) => s@.summary,
        Option::None => Option::None,
    }
}

/// What normalizing one process's persisted output yields.
///
/// With nothing but whitespace captured the conversation is empty. A process
/// with stdout but an unresolvable executor type normalizes to an empty
/// conversation under that type. Otherwise stdout goes through its adapter's
/// dialect (the setup-script dialect is chosen by the process type), stderr
/// chunks become error entries stamped `now`, and the merged entries are
/// stably sorted by timestamp. A setup script is reported under the executor
/// type `setup-script`.
pub open spec fn spec_normalize(
    process_type: ExecutionProcessType,
    executor_type: Option<Seq<char>>,
    stdout: Option<Seq<char>>,
    stderr: Option<Seq<char>>,
    wd: Seq<char>,
    prompt: Option<Seq<char>>,
    summary: Option<Seq<char>>,
    now: Seq<char>,
) -> NormalizedConversationView {
    let has_stdout = !spec_blank(text_of(stdout));
    let has_stderr = !spec_blank(text_of(stderr));
    let is_setup = process_type == ExecutionProcessType::SetupScript;
    if !has_stdout && !has_stderr {
        NormalizedConversationView {
            entries: Seq::empty(),
            session_id: Option::None,
            executor_type: or_unknown(executor_type),
            prompt,
            summary,
        }
    } else {
        let kind = if is_setup {
            ExecutorKind::SetupScript
        } else {
            resolve_kind(or_unknown(executor_type))
        };
        if has_stdout && kind == ExecutorKind::Unknown {
            NormalizedConversationView {
                entries: Seq::empty(),
                session_id: Option::None,
                executor_type: or_unknown(executor_type),
                prompt,
                summary,
            }
        } else {
            let from_stdout = if !has_stdout {
                Seq::empty()
            } else if is_setup {
                setup_stdout_entries(text_of(stdout))
            } else {
                agent_stdout_entries(text_of(stdout), wd)
            };
            let from_stderr = stderr_entries(text_of(stderr), now);
            NormalizedConversationView {
                entries: spec_sort_entries(from_stdout + from_stderr),
                session_id: Option::None,
                executor_type: if is_setup {
                    "setup-script"@
                } else {
                    or_unknown(executor_type)
                },
                prompt,
                summary,
            }
        }
    }
}

/// Law (determinism, idempotence): normalizing is a pure function of the
/// persisted input and the canonical working directory — the same input
/// normalizes to the same conversation, however often it is asked.
pub proof fn lemma_normalize_deterministic(
    process_type: ExecutionProcessType,
    executor_type: Option<Seq<char>>,
    stdout: Option<Seq<char>>,
    stderr: Option<Seq<char>>,
    wd: Seq<char>,
    prompt: Option<Seq<char>>,
    summary: Option<Seq<char>>,
    now: Seq<char>,
    process_type2: ExecutionProcessType,
    executor_type2: Option<Seq<char>>,
    stdout2: Option<Seq<char>>,
    stderr2: Option<Seq<char>>,
    wd2: Seq<char>,
    prompt2: Option<Seq<char>>,
    summary2: Option<Seq<char>>,
    now2: Seq<char>,
)
    requires
        process_type == process_type2,
        executor_type == executor_type2,
        stdout == stdout2,
        stderr == stderr2,
        wd == wd2,
        prompt == prompt2,
        summary == summary2,
        now == now2,
    ensures
        spec_normalize(process_type, executor_type, stdout, stderr, wd, prompt, summary, now)
            == spec_normalize(
            process_type2,
            executor_type2,
            stdout2,
            stderr2,
            wd2,
            prompt2,
            summary2,
            now2,
        ),
{
}

/// The single-line entry of the agent dialect, executably.
fn entry_from_line(line: &str, wd: &str) -> (r: Option<NormalizedEntry>)
    ensures
        match r {
            Option::Some(e) => entry_of_line(line@, wd@) == Option::Some(e@),
            Option::None => entry_of_line(line@, wd@) is None,
        },
{
    let fields = match crate::json::scan_json_object(line) {
        Option::Some(fields) => fields,
        Option::None => {
            return Option::None;
        },
    };
    let ty = match crate::json::lookup_field(&fields, "type") {
        Option::Some(v) => v.clone(),
        Option::None => {
            return Option::None;
        },
    };
    let content = match crate::json::lookup_field(&fields, "content") {
        Option::Some(v) => v.clone(),
        Option::None => String::new(),
    };
    let timestamp = match crate::json::lookup_field(&fields, "timestamp") {
        Option::Some(v) => Option::Some(v.clone()),
        Option::None => Option::None,
    };
    if crate::text::str_eq(ty.as_str(), "user") {
        Option::Some(
            NormalizedEntry {
                timestamp,
                entry_type: NormalizedEntryType::UserMessage,
                content,
                metadata: Option::None,
            },
        )
    } else if crate::text::str_eq(ty.as_str(), "assistant") {
        Option::Some(
            NormalizedEntry {
                timestamp,
                entry_type: NormalizedEntryType::AssistantMessage,
                content,
                metadata: Option::None,
            },
        )
    } else if crate::text::str_eq(ty.as_str(), "system") {
        Option::Some(
            NormalizedEntry {
                timestamp,
                entry_type: NormalizedEntryType::SystemMessage,
                content,
                metadata: Option::None,
            },
        )
    } else if crate::text::str_eq(ty.as_str(), "error") {
        Option::Some(
            NormalizedEntry {
                timestamp,
                entry_type: NormalizedEntryType::ErrorMessage,
                content,
                metadata: Option::None,
            },
        )
    } else if crate::text::str_eq(ty.as_str(), "tool_use") {
        let action = match crate::json::lookup_field(&fields, "action") {
            Option::Some(v) => v.clone(),
            Option::None => String::new(),
        };
        let action_type = if crate::text::str_eq(action.as_str(), "plan_presentation") {
            let plan = match crate::json::lookup_field(&fields, "plan") {
                Option::Some(v) => v.clone(),
                Option::None => String::new(),
            };
            ActionType::PlanPresentation { plan }
        } else {
            ActionType::Other { action }
        };
        Option::Some(
            NormalizedEntry {
                timestamp,
                entry_type: NormalizedEntryType::ToolUse { action_type },
                content: strip_wd_prefix(content, wd),
                metadata: Option::None,
            },
        )
    } else {
        Option::None
    }
}

/// Strip a leading `wd + "/"` from a tool-use path.
fn strip_wd_prefix(content: String, wd: &str) -> (r: String)
    ensures
        r@ == rewrite_path(content@, wd@),
{
    proof {
        reveal_strlit("/");
    }
    let n_wd: usize = wd.unicode_len();
    if n_wd == 0 {
        return content;
    }
    let pref = String::from_str(wd).concat("/");
    proof {
        assert(pref@ =~= wd@ + "/"@);
    }
    if crate::text::str_starts_with(content.as_str(), pref.as_str()) {
        let n_c: usize = content.as_str().unicode_len();
        let stripped = content.as_str().substring_char(n_wd + 1, n_c);
        proof {
            assert(stripped@ =~= content@.skip(n_wd + 1));
        }
        String::from_str(stripped)
    } else {
        content
    }
}

/// The agent-dialect entries of a whole stdout capture.
pub(crate) fn agent_entries_exec(stdout: &str, wd: &str) -> (r: Vec<NormalizedEntry>)
    ensures
        r@.map_values(|e: NormalizedEntry| e@) == agent_stdout_entries(stdout@, wd@),
{
    proof {
        reveal_strlit("\n");
    }
    let lines = crate::text::split_on(stdout, "\n");
    let ghost lv = lines@.map_values(|x: String| x@);
    let n: usize = lines.len();
    let mut out: Vec<NormalizedEntry> = Vec::new();
    let mut i: usize = 0;
    proof {
        assert(lv.take(0) =~~= Seq::<Seq<char>>::empty());
        assert(out@.map_values(|e: NormalizedEntry| e@) =~= agent_entries(lv.take(0), wd@));
    }
    while i < n
        invariant
            n == lines.len(),
            lv == lines@.map_values(|x: String| x@),
            0 <= i <= n,
            out@.map_values(|e: NormalizedEntry| e@) == agent_entries(lv.take(i as int), wd@),
        decreases n - i,
    {
        proof {
            assert(lv.take(i + 1) =~~= lv.take(i as int).push(lv[i as int]));
            lemma_agent_entries_push(lv.take(i as int), wd@, lv[i as int]);
        }
        match entry_from_line(lines[i].as_str(), wd) {
            Option::Some(e) => {
                let ghost o0 = out@;
                out.push(e);
                proof {
                    assert(out@.map_values(|e: NormalizedEntry| e@) =~= o0.map_values(
                        |e: NormalizedEntry| e@,
                    ).push(out@.last()@));
                }
            },
            Option::None => {},
        }
        i = i + 1;
    }
    proof {
        assert(lv.take(n as int) =~~= lv);
    }
    out
}

/// The setup-script entries of a whole stdout capture.
fn setup_entries_exec(stdout: &str) -> (r: Vec<NormalizedEntry>)
    ensures
        r@.map_values(|e: NormalizedEntry| e@) == setup_stdout_entries(stdout@),
{
    proof {
        reveal_strlit("\n");
    }
    let lines = crate::text::split_on(stdout, "\n");
    let ghost lv = lines@.map_values(|x: String| x@);
    let n: usize = lines.len();
    let mut out: Vec<NormalizedEntry> = Vec::new();
    let mut i: usize = 0;
    proof {
        assert(lv.take(0) =~~= Seq::<Seq<char>>::empty());
        assert(out@.map_values(|e: NormalizedEntry| e@) =~= setup_entries(lv.take(0)));
    }
    while i < n
        invariant
            n == lines.len(),
            lv == lines@.map_values(|x: String| x@),
            0 <= i <= n,
            out@.map_values(|e: NormalizedEntry| e@) == setup_entries(lv.take(i as int)),
        decreases n - i,
    {
        proof {
            assert(lv.take(i + 1) =~~= lv.take(i as int).push(lv[i as int]));
            lemma_setup_entries_push(lv.take(i as int), lv[i as int]);
        }
        let t = crate::text::trim(lines[i].as_str());
        if t.as_str().unicode_len() > 0 {
            let ghost o0 = out@;
            out.push(
                NormalizedEntry {
                    timestamp: Option::None,
                    entry_type: NormalizedEntryType::SystemMessage,
                    content: t,
                    metadata: Option::None,
                },
            );
            proof {
                assert(out@.map_values(|e: NormalizedEntry| e@) =~= o0.map_values(
                    |e: NormalizedEntry| e@,
                ).push(out@.last()@));
            }
        }
        i = i + 1;
    }
    proof {
        assert(lv.take(n as int) =~~= lv);
    }
    out
}

/// The error entries of a whole stderr capture.
fn err_entries_exec(stderr: &str, now: &str) -> (r: Vec<NormalizedEntry>)
    ensures
        r@.map_values(|e: NormalizedEntry| e@) == stderr_entries(stderr@, now@),
{
    proof {
        assert(boundary_marker().len() > 0) by {
            reveal_strlit("---STDERR_CHUNK_BOUNDARY---");
        }
    }
    let trimmed = crate::text::trim(stderr);
    let chunks = crate::text::split_on(trimmed.as_str(), crate::store::boundary_marker_str());
    let ghost cv = chunks@.map_values(|x: String| x@);
    let n: usize = chunks.len();
    let mut out: Vec<NormalizedEntry> = Vec::new();
    let mut i: usize = 0;
    proof {
        assert(cv.take(0) =~~= Seq::<Seq<char>>::empty());
        assert(out@.map_values(|e: NormalizedEntry| e@) =~= err_entries(cv.take(0), now@));
    }
    while i < n
        invariant
            n == chunks.len(),
            cv == chunks@.map_values(|x: String| x@),
            0 <= i <= n,
            out@.map_values(|e: NormalizedEntry| e@) == err_entries(cv.take(i as int), now@),
        decreases n - i,
    {
        proof {
            assert(cv.take(i + 1) =~~= cv.take(i as int).push(cv[i as int]));
            lemma_err_entries_push(cv.take(i as int), now@, cv[i as int]);
        }
        let t = crate::text::trim(chunks[i].as_str());
        if t.as_str().unicode_len() > 0 {
            let ghost o0 = out@;
            out.push(
                NormalizedEntry {
                    timestamp: Option::Some(String::from_str(now)),
                    entry_type: NormalizedEntryType::ErrorMessage,
                    content: t,
                    metadata: Option::None,
                },
            );
            proof {
                assert(out@.map_values(|e: NormalizedEntry| e@) =~= o0.map_values(
                    |e: NormalizedEntry| e@,
                ).push(out@.last()@));
            }
        }
        i = i + 1;
    }
    proof {
        assert(cv.take(n as int) =~~= cv);
    }
    out
}

/// Does `a` sort at or before `b`?
fn entry_le_exec(a: &NormalizedEntry, b: &NormalizedEntry) -> (r: bool)
    ensures
        r == entry_le(a@, b@),
{
    match (&a.timestamp, &b.timestamp) {
        (Option::None, _) => true,
        (Option::Some(_), Option::None) => false,
        (Option::Some(x), Option::Some(y)) => crate::text::str_le(x.as_str(), y.as_str()),
    }
}

/// Insert an entry into a sorted run, after everything it does not strictly
/// precede.
fn insert_entry(v: Vec<NormalizedEntry>, e: NormalizedEntry) -> (r: Vec<NormalizedEntry>)
    ensures
        r@.map_values(|x: NormalizedEntry| x@) == spec_insert_entry(
            v@.map_values(|x: NormalizedEntry| x@),
            e@,
        ),
    decreases v@.len(),
{
    let ghost vv = v@.map_values(|x: NormalizedEntry| x@);
    let n: usize = v.len();
    if n == 0 {
        let mut r = v;
        r.push(e);
        proof {
            assert(r@.map_values(|x: NormalizedEntry| x@) =~= spec_insert_entry(vv, e@));
        }
        r
    } else if entry_le_exec(&v[n - 1], &e) {
        let mut r = v;
        r.push(e);
        proof {
            assert(vv.last() == r@.map_values(|x: NormalizedEntry| x@)[n - 1]);
            assert(r@.map_values(|x: NormalizedEntry| x@) =~= vv.push(e@));
        }
        r
    } else {
        let mut v = v;
        let last = v.remove(n - 1);
        proof {
            assert(v@.map_values(|x: NormalizedEntry| x@) =~= vv.drop_last());
            assert(last@ == vv.last());
        }
        let mut r = insert_entry(v, e);
        let ghost rv = r@.map_values(|x: NormalizedEntry| x@);
        r.push(last);
        proof {
            assert(r@.map_values(|x: NormalizedEntry| x@) =~= rv.push(vv.last()));
        }
        r
    }
}

/// Stably sort entries by timestamp: absent timestamps first, present ones
/// ascending, ties in arrival order.
pub fn sort_entries(v: Vec<NormalizedEntry>) -> (r: Vec<NormalizedEntry>)
    ensures
        r@.map_values(|x: NormalizedEntry| x@) == spec_sort_entries(
            v@.map_values(|x: NormalizedEntry| x@),
        ),
    decreases v@.len(),
{
    let ghost vv = v@.map_values(|x: NormalizedEntry| x@);
    let n: usize = v.len();
    if n == 0 {
        v
    } else {
        let mut v = v;
        let last = v.remove(n - 1);
        proof {
            assert(v@.map_values(|x: NormalizedEntry| x@) =~= vv.drop_last());
            assert(last@ == vv.last());
        }
        let sorted = sort_entries(v);
        insert_entry(sorted, last)
    }
}

/// Normalize one process's persisted output into a conversation, stamping
/// stderr-derived entries with `now`. The store's working directory is taken
/// as the canonical one.
pub fn normalize_process_logs(
    process: &crate::model::ExecutionProcess,
    session: Option<&crate::model::ExecutorSession>,
    now: &str,
) -> (r: NormalizedConversation)
    ensures
        r@ == spec_normalize(
            process@.process_type,
            process@.executor_type,
            process@.stdout,
            process@.stderr,
            process@.working_directory,
            session_prompt_of(session),
            session_summary_of(session),
            now@,
        ),
{
    proof {
        reveal_strlit("");
    }
    let has_stdout = match &process.stdout {
        Option::Some(s) => !crate::text::is_blank(s.as_str()),
        Option::None => false,
    };
    let has_stderr = match &process.stderr {
        Option::Some(s) => !crate::text::is_blank(s.as_str()),
        Option::None => false,
    };
    let prompt = match session {
        Option::Some(s) => crate::model::clone_opt_string(&s.prompt),
        Option::None => Option::None,
    };
    let summary = match session {
        Option::Some(s) => crate::model::clone_opt_string(&s.summary),
        Option::None => Option::None,
    };
    let et_string = match &process.executor_type {
        Option::Some(s) => s.clone(),
        Option::None => String::from_str("unknown"),
    };
    if !has_stdout && !has_stderr {
        let r = NormalizedConversation {
            entries: Vec::new(),
            session_id: Option::None,
            executor_type: et_string,
            prompt,
            summary,
        };
        proof {
            assert(r@.entries =~= Seq::<NormalizedEntryView>::empty());
            assert(r@ =~= spec_normalize(
                process@.process_type,
                process@.executor_type,
                process@.stdout,
                process@.stderr,
                process@.working_directory,
                session_prompt_of(session),
                session_summary_of(session),
                now@,
            ));
        }
        return r;
    }
    let is_setup = match process.process_type {
        ExecutionProcessType::SetupScript => true,
        _ => false,
    };
    let kind = if is_setup {
        ExecutorKind::SetupScript
    } else {
        resolve_executor(et_string.as_str())
    };
    let kind_unknown = match kind {
        ExecutorKind::Unknown => true,
        _ => false,
    };
    if has_stdout && kind_unknown {
        let r = NormalizedConversation {
            entries: Vec::new(),
            session_id: Option::None,
            executor_type: et_string,
            prompt,
            summary,
        };
        proof {
            assert(r@.entries =~= Seq::<NormalizedEntryView>::empty());
            assert(r@ =~= spec_normalize(
                process@.process_type,
                process@.executor_type,
                process@.stdout,
                process@.stderr,
                process@.working_directory,
                session_prompt_of(session),
                session_summary_of(session),
                now@,
            ));
        }
        return r;
    }
    let mut from_stdout: Vec<NormalizedEntry> = if !has_stdout {
        Vec::new()
    } else {
        let stdout_str = match &process.stdout {
            Option::Some(s) => s.as_str(),
            Option::None => "",
        };
        if is_setup {
            setup_entries_exec(stdout_str)
        } else {
            agent_entries_exec(stdout_str, process.working_directory.as_str())
        }
    };
    let stderr_str = match &process.stderr {
        Option::Some(s) => s.as_str(),
        Option::None => "",
    };
    let mut from_stderr = err_entries_exec(stderr_str, now);
    let ghost so = from_stdout@.map_values(|x: NormalizedEntry| x@);
    let ghost se = from_stderr@.map_values(|x: NormalizedEntry| x@);
    proof {
        assert(""@ =~= Seq::<char>::empty());
        if !has_stdout {
            assert(so =~= Seq::<NormalizedEntryView>::empty());
        }
    }
    from_stdout.append(&mut from_stderr);
    proof {
        assert(from_stdout@.map_values(|x: NormalizedEntry| x@) =~= so + se);
    }
    let sorted = sort_entries(from_stdout);
    let final_type = if is_setup {
        String::from_str("setup-script")
    } else {
        et_string
    };
    let r = NormalizedConversation {
        entries: sorted,
        session_id: Option::None,
        executor_type: final_type,
        prompt,
        summary,
    };
    proof {
        assert(r@ =~= spec_normalize(
            process@.process_type,
            process@.executor_type,
            process@.stdout,
            process@.stderr,
            process@.working_directory,
            session_prompt_of(session),
            session_summary_of(session),
            now@,
        ));
    }
    r
}

} // verus!
