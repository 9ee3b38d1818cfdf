//! The query controller: owns the entries and the history, switches between
//! search and command mode as the text changes, and decides what an
//! activation launches.
use crate::entry::{lemma_rank_total_order, match_of, rank_cmp, AppEntry, NEUTRAL_SCORE};
use crate::history::{lemma_recorded_stat, recorded, stat_of, unique_ids, History, Record};
use crate::text::{same_text, trim, trim_of};
use std::cmp::Ordering;
use vstd::prelude::*;

verus! {

/// What the host has to do after an event.
pub enum Action {
    Nothing,
    /// Run this command line as it stands.
    RunCommand(String),
    /// Launch the entry at this index (its use is already recorded).
    Launch(usize),
}

/// An event from the host.
pub enum Event {
    TextChanged(String),
    /// Enter in the search field; the payload is the current ordinal.
    Activated(u64),
    /// A row was chosen: the entry's index and the current ordinal.
    RowActivated(usize, u64),
}

/// Whether the text is in command mode: it starts with the prefix.
pub open spec fn in_command_mode(text: Seq<char>, prefix: Seq<char>) -> bool {
    prefix.is_prefix_of(text)
}

/// The command that a command-mode text holds: what follows the prefix,
/// trimmed.
pub open spec fn command_of(text: Seq<char>, prefix: Seq<char>) -> Seq<char> {
    trim_of(text.subrange(prefix.len() as int, text.len() as int))
}

/// Count and last use that the history gives an entry id.
pub open spec fn weight_of(h: Seq<Record>, id: Seq<char>) -> (u64, u64) {
    match stat_of(h, id) {
        Some(st) => st,
        None => (0, 0),
    }
}

/// No two entries share an id.
pub open spec fn distinct_ids(s: Seq<AppEntry>) -> bool {
    forall|i: int, j: int| 0 <= i < j < s.len() ==> (#[trigger] s[i]).id@ != (#[trigger] s[j]).id@
}

/// The first entry of each id, in order.
pub open spec fn first_of_ids(s: Seq<AppEntry>) -> Seq<AppEntry>
    decreases s.len(),
{
    if s.len() == 0 {
        s
    } else {
        let d = first_of_ids(s.drop_last());
        if exists|k: int| 0 <= k < d.len() && (#[trigger] d[k]).id@ == s.last().id@ {
            d
        } else {
            d.push(s.last())
        }
    }
}

/// `a` is `b` with the history weight `w`.
pub open spec fn weighted(a: AppEntry, b: AppEntry, w: (u64, u64)) -> bool {
    &&& a.id@ == b.id@
    &&& a.name@ == b.name@
    &&& a.description == b.description
    &&& a.keywords@ == b.keywords@
    &&& a.command@ == b.command@
    &&& a.terminal == b.terminal
    &&& a.working_dir == b.working_dir
    &&& a.icon == b.icon
    &&& a.score == b.score
    &&& a.hidden == b.hidden
    &&& a.count == w.0
    &&& a.last_used == w.1
}

/// Whether `text` starts with `prefix`.
pub fn is_cmd(text: &str, prefix: &str) -> (r: bool)
    ensures
        r == in_command_mode(text@, prefix@),
{
    let n = prefix.unicode_len();
    let m = text.unicode_len();
    if n > m {
        return false;
    }
    let mut i: usize = 0;
    while i < n
        invariant
            n == prefix@.len(),
            m == text@.len(),
            n <= m,
            i <= n,
            forall|j: int| 0 <= j < i ==> prefix@[j] == text@[j],
        decreases n - i,
    {
        if prefix.get_char(i) != text.get_char(i) {
            return false;
        }
        i = i + 1;
    }
    true
}

/// The command line of a command-mode text, none in search mode.
pub fn command_line(text: &str, prefix: &str) -> (r: Option<String>)
    ensures
        match r {
            Some(c) => in_command_mode(text@, prefix@) && c@ == command_of(text@, prefix@),
            None => !in_command_mode(text@, prefix@),
        },
{
    if is_cmd(text, prefix) {
        let rest = text.substring_char(prefix.unicode_len(), text.unicode_len());
        Some(trim(rest))
    } else {
        None
    }
}

/// The state after the query text became `text`.
pub open spec fn text_changed_post(pre: &Launcher, post: &Launcher, text: Seq<char>) -> bool {
    &&& post.spec_text() == text
    &&& post.spec_prefix() == pre.spec_prefix()
    &&& post.spec_history() == pre.spec_history()
    &&& post.spec_entries().len() == pre.spec_entries().len()
    &&& forall|k: int|
        0 <= k < post.spec_entries().len() ==> (#[trigger] post.spec_entries()[k]).same_item(&pre.spec_entries()[k])
    &&& in_command_mode(text, pre.spec_prefix()) ==> forall|k: int|
        0 <= k < post.spec_entries().len() ==> (#[trigger] post.spec_entries()[k]).hidden
            && post.spec_entries()[k].score == NEUTRAL_SCORE
    &&& !in_command_mode(text, pre.spec_prefix()) ==> forall|k: int|
        0 <= k < post.spec_entries().len() ==> {
            let m = match_of(pre.spec_entries()[k].fields(), text);
            &&& (#[trigger] post.spec_entries()[k]).hidden == m.is_none()
            &&& post.spec_entries()[k].score == match m {
                Some(s) => s,
                None => NEUTRAL_SCORE,
            }
        }
}

/// Nothing that matters changed.
pub open spec fn unchanged(pre: &Launcher, post: &Launcher) -> bool {
    &&& post.spec_entries() == pre.spec_entries()
    &&& post.spec_history() == pre.spec_history()
    &&& post.spec_prefix() == pre.spec_prefix()
    &&& post.spec_text() == pre.spec_text()
}

/// The state after a launch of entry `i` was recorded at `now`: the history
/// counts it, and the entry carries its new weight.
pub open spec fn launched(pre: &Launcher, post: &Launcher, i: int, now: u64) -> bool {
    &&& 0 <= i < pre.spec_entries().len()
    &&& post.spec_history() == recorded(pre.spec_history(), pre.spec_entries()[i].id@, now)
    &&& post.spec_prefix() == pre.spec_prefix()
    &&& post.spec_text() == pre.spec_text()
    &&& post.spec_entries().len() == pre.spec_entries().len()
    &&& weighted(post.spec_entries()[i], pre.spec_entries()[i], weight_of(post.spec_history(), pre.spec_entries()[i].id@))
    &&& forall|k: int|
        0 <= k < post.spec_entries().len() && k != i ==> #[trigger] post.spec_entries()[k] == pre.spec_entries()[k]
}

/// Entry `i` ranks first among all entries, and is visible.
pub open spec fn is_top(s: Seq<AppEntry>, i: int) -> bool {
    &&& 0 <= i < s.len()
    &&& !s[i].hidden
    &&& forall|j: int| 0 <= j < s.len() && j != i ==> rank_cmp(&s[i], &#[trigger] s[j]) == Ordering::Less
}

/// What activating the search field does: in command mode it hands back the
/// command line and changes nothing; else it launches the top visible
/// entry, or does nothing where none is visible.
pub open spec fn activated_post(pre: &Launcher, post: &Launcher, now: u64, r: Action) -> bool {
    if in_command_mode(pre.spec_text(), pre.spec_prefix()) {
        &&& r matches Action::RunCommand(c) && c@ == command_of(pre.spec_text(), pre.spec_prefix())
        &&& unchanged(pre, post)
    } else if exists|j: int| 0 <= j < pre.spec_entries().len() && !(#[trigger] pre.spec_entries()[j]).hidden {
        &&& r matches Action::Launch(i) && is_top(pre.spec_entries(), i as int) && launched(pre, post, i as int, now)
    } else {
        &&& r matches Action::Nothing
        &&& unchanged(pre, post)
    }
}

/// What choosing entry `i` directly does: a visible entry is launched, any
/// other request is rejected and changes nothing.
pub open spec fn row_activated_post(pre: &Launcher, post: &Launcher, i: usize, now: u64, r: bool) -> bool {
    &&& r == (i < pre.spec_entries().len() && !pre.spec_entries()[i as int].hidden)
    &&& r ==> launched(pre, post, i as int, now)
    &&& !r ==> unchanged(pre, post)
}

/// The launcher's state.
pub struct Launcher {
    entries: Vec<AppEntry>,
    history: History,
    /// The literal that starts command mode.
    prefix: String,
    /// The current query text.
    text: String,
}

impl Launcher {
    pub closed spec fn spec_entries(&self) -> Seq<AppEntry> {
        self.entries@
    }

    pub closed spec fn spec_history(&self) -> Seq<Record> {
        self.history@
    }

    pub closed spec fn spec_prefix(&self) -> Seq<char> {
        self.prefix@
    }

    pub closed spec fn spec_text(&self) -> Seq<char> {
        self.text@
    }

    /// The entries, in the order the launcher keeps them.
    pub fn entries(&self) -> (r: &Vec<AppEntry>)
        ensures
            r@ == self.spec_entries(),
    {
        &self.entries
    }

    /// The launch history.
    pub fn history(&self) -> (r: &History)
        ensures
            r@ == self.spec_history(),
            r.wf() == unique_ids(self.spec_history()),
    {
        &self.history
    }

    /// The command prefix.
    pub fn prefix(&self) -> (r: &str)
        ensures
            r@ == self.spec_prefix(),
    {
        self.prefix.as_str()
    }

    /// The current query text.
    pub fn text(&self) -> (r: &str)
        ensures
            r@ == self.spec_text(),
    {
        self.text.as_str()
    }

    pub open spec fn wf(&self) -> bool {
        &&& distinct_ids(self.spec_entries())
        &&& unique_ids(self.spec_history())
    }

    /// A launcher over the first entry of each id, each weighted by the
    /// history, with the empty query.
    pub fn new(entries: Vec<AppEntry>, history: History, prefix: String) -> (r: Launcher)
        requires
            history.wf(),
        ensures
            r.wf(),
            r.spec_history() == history@,
            r.spec_prefix() == prefix@,
            r.spec_text().len() == 0,
            r.spec_entries().len() == first_of_ids(entries@).len(),
            forall|k: int|
                0 <= k < r.spec_entries().len() ==> weighted(
                    #[trigger] r.spec_entries()[k],
                    first_of_ids(entries@)[k],
                    weight_of(history@, r.spec_entries()[k].id@),
                ),
    {
        let ghost src = entries@;
        let n = entries.len();
        let mut rest = entries;
        let mut out: Vec<AppEntry> = Vec::new();
        let mut i: usize = 0;
        while rest.len() > 0
            invariant
                n == src.len(),
                i <= src.len(),
                rest@ == src.subrange(i as int, src.len() as int),
                rest@.len() == src.len() - i,
                history.wf(),
                distinct_ids(out@),
                out@.len() == first_of_ids(src.subrange(0, i as int)).len(),
                forall|k: int|
                    0 <= k < out@.len() ==> weighted(
                        #[trigger] out@[k],
                        first_of_ids(src.subrange(0, i as int))[k],
                        weight_of(history@, out@[k].id@),
                    ),
            decreases rest.len(),
        {
            let ghost d = first_of_ids(src.subrange(0, i as int));
            proof {
                assert(src.subrange(0, i + 1).drop_last() =~= src.subrange(0, i as int));
                assert(src.subrange(0, i + 1).last() == src[i as int]);
                assert(rest@[0] == src[i as int]);
            }
            let mut e = rest.remove(0);
            let mut seen = false;
            let mut k: usize = 0;
            while k < out.len()
                invariant
                    n == src.len(),
                    i < src.len(),
                    k <= out@.len(),
                    !seen ==> forall|j: int| 0 <= j < k ==> (#[trigger] out@[j]).id@ != e.id@,
                    seen ==> exists|j: int| 0 <= j < out@.len() && (#[trigger] out@[j]).id@
                        == e.id@,
                decreases out.len() - k,
            {
                if same_text(out[k].id.as_str(), e.id.as_str()) {
                    seen = true;
                }
                k = k + 1;
            }
            proof {
                if seen {
                    let j = choose|j: int| 0 <= j < out@.len() && (#[trigger] out@[j]).id@ == e.id@;
                    assert(d[j].id@ == e.id@);
                } else {
                    if exists|j: int| 0 <= j < d.len() && (#[trigger] d[j]).id@ == e.id@ {
                        let j = choose|j: int| 0 <= j < d.len() && (#[trigger] d[j]).id@ == e.id@;
                        assert(out@[j].id@ != e.id@);
                    }
                }
            }
            if !seen {
                let w = history.stat(e.id.as_str());
                match w {
                    Some(st) => e.set_history(st.0, st.1),
                    None => e.set_history(0, 0),
                }
                let ghost before = out@;
                out.push(e);
                proof {
                    assert forall|k: int|
                        0 <= k < out@.len() implies weighted(
                        #[trigger] out@[k],
                        first_of_ids(src.subrange(0, i + 1))[k],
                        weight_of(history@, out@[k].id@),
                    ) by {
                        if k < before.len() {
                            assert(out@[k] == before[k]);
                        }
                    }
                    assert forall|a: int, b: int| 0 <= a < b < out@.len() implies (
                    #[trigger] out@[a]).id@ != (#[trigger] out@[b]).id@ by {
                        if b < before.len() {
                            assert(out@[a] == before[a]);
                            assert(out@[b] == before[b]);
                        } else {
                            assert(out@[a] == before[a]);
                        }
                    }
                }
            }
            i = i + 1;
            proof {
                assert(rest@ =~= src.subrange(i as int, src.len() as int));
            }
        }
        assert(src.subrange(0, i as int) =~= src);
        Launcher { entries: out, history, prefix, text: String::new() }
    }

    /// Takes a new query text. In command mode every entry is hidden with its
    /// score cleared, without matching; otherwise each entry is matched anew.
    pub fn text_changed(&mut self, text: &str)
        requires
            old(self).wf(),
        ensures
            final(self).wf(),
            text_changed_post(old(self), final(self), text@),
    {
        let cmd = is_cmd(text, self.prefix.as_str());
        let ghost before = self.spec_entries();
        let ghost p = self.spec_prefix();
        let ghost h = self.spec_history();
        let mut i: usize = 0;
        while i < self.entries.len()
            invariant
                self.spec_prefix() == p,
                self.spec_history() == h,
                unique_ids(h),
                distinct_ids(before),
                self.spec_entries().len() == before.len(),
                i <= before.len(),
                cmd == in_command_mode(text@, p),
                forall|k: int| i <= k < before.len() ==> self.spec_entries()[k] == before[k],
                forall|k: int|
                    0 <= k < i ==> (#[trigger] self.spec_entries()[k]).same_item(
                        &before[k],
                    ),
                cmd ==> forall|k: int|
                    0 <= k < i ==> (#[trigger] self.spec_entries()[k]).hidden && self.spec_entries()[k].score
                        == NEUTRAL_SCORE,
                !cmd ==> forall|k: int|
                    0 <= k < i ==> {
                        let m = match_of(before[k].fields(), text@);
                        &&& (#[trigger] self.spec_entries()[k]).hidden == m.is_none()
                        &&& self.spec_entries()[k].score == match m {
                            Some(s) => s,
                            None => NEUTRAL_SCORE,
                        }
                    },
            decreases before.len() - i,
        {
            if cmd {
                self.entries[i].conceal();
            } else {
                self.entries[i].update_match(text);
            }
            i = i + 1;
        }
        proof {
            assert forall|a: int, b: int| 0 <= a < b < self.spec_entries().len() implies (
            #[trigger] self.spec_entries()[a]).id@ != (#[trigger] self.spec_entries()[b]).id@ by {
                assert(before[a].id@ != before[b].id@);
            }
        }
        self.text = text.to_owned();
    }

    /// The entry that ranks first, if any is visible.
    pub fn top_visible(&self) -> (r: Option<usize>)
        requires
            self.wf(),
        ensures
            match r {
                Some(i) => i < self.spec_entries().len() && !self.spec_entries()[i as int].hidden && forall|
                    j: int,
                |
                    0 <= j < self.spec_entries().len() && j != i ==> rank_cmp(
                        &self.spec_entries()[i as int],
                        &#[trigger] self.spec_entries()[j],
                    ) == Ordering::Less,
                None => forall|j: int|
                    0 <= j < self.spec_entries().len() ==> (#[trigger] self.spec_entries()[j]).hidden,
            },
    {
        let es = &self.entries;
        let mut best: Option<usize> = None;
        let mut j: usize = 0;
        while j < es.len()
            invariant
                es@ == self.spec_entries(),
                self.wf(),
                j <= es@.len(),
                match best {
                    Some(b) => b < j && !es@[b as int].hidden && forall|k: int|
                        0 <= k < j && k != b ==> rank_cmp(&es@[b as int], &#[trigger] es@[k])
                            == Ordering::Less,
                    None => forall|k: int| 0 <= k < j ==> (#[trigger] es@[k]).hidden,
                },
            decreases es.len() - j,
        {
            if !es[j].hidden() {
                match best {
                    None => {
                        best = Some(j);
                    },
                    Some(b) => {
                        let c = es[j].cmp(&es[b]);
                        proof {
                            lemma_rank_total_order(&es@[j as int], &es@[b as int], &es@[b as int]);
                        }
                        if matches!(c, Ordering::Less) {
                            proof {
                                assert forall|k: int| 0 <= k < j + 1 && k != j implies rank_cmp(
                                    &es@[j as int],
                                    &#[trigger] es@[k],
                                ) == Ordering::Less by {
                                    if k != b {
                                        lemma_rank_total_order(
                                            &es@[j as int],
                                            &es@[b as int],
                                            &es@[k],
                                        );
                                    }
                                }
                            }
                            best = Some(j);
                        } else {
                            proof {
                                assert(es@[b as int].id@ != es@[j as int].id@);
                                assert(rank_cmp(&es@[b as int], &es@[j as int]) == Ordering::Less);
                            }
                        }
                    },
                }
            } else {
                proof {
                    match best {
                        Some(b) => {
                            assert(rank_cmp(&es@[b as int], &es@[j as int]) == Ordering::Less);
                        },
                        None => {},
                    }
                }
            }
            j = j + 1;
        }
        best
    }
    /// Launches entry `i` if it is visible: records its use at `now` and
    /// gives it its new weight. A hidden or absent entry is rejected.
    pub fn activate_entry(&mut self, i: usize, now: u64) -> (r: bool)
        requires
            old(self).wf(),
        ensures
            final(self).wf(),
            row_activated_post(old(self), final(self), i, now, r),
    {
        if i >= self.entries.len() || self.entries[i].hidden() {
            return false;
        }
        let id = self.entries[i].id.as_str().to_owned();
        self.history.record_use(id.as_str(), now);
        proof {
            lemma_recorded_stat(old(self).spec_history(), id@, now);
        }
        let st = self.history.stat(id.as_str());
        let ghost mid = self.spec_entries();
        match st {
            Some(w) => self.entries[i].set_history(w.0, w.1),
            None => {},
        }
        proof {
            assert forall|a: int, b: int| 0 <= a < b < self.spec_entries().len() implies (
            #[trigger] self.spec_entries()[a]).id@ != (#[trigger] self.spec_entries()[b]).id@ by {
                assert(mid[a].id@ != mid[b].id@);
            }
        }
        true
    }

    /// Activation from the search field: runs the command in command mode,
    /// else launches the entry that ranks first, if any is visible.
    pub fn activate(&mut self, now: u64) -> (r: Action)
        requires
            old(self).wf(),
        ensures
            final(self).wf(),
            activated_post(old(self), final(self), now, r),
    {
        match command_line(self.text.as_str(), self.prefix.as_str()) {
            Some(c) => Action::RunCommand(c),
            None => match self.top_visible() {
                Some(i) => {
                    self.activate_entry(i, now);
                    Action::Launch(i)
                },
                None => Action::Nothing,
            },
        }
    }

    /// Handles one event from the host and says what it has to do.
    pub fn handle(&mut self, event: Event) -> (r: Action)
        requires
            old(self).wf(),
        ensures
            final(self).wf(),
            match event {
                Event::TextChanged(t) => r matches Action::Nothing && text_changed_post(
                    old(self),
                    final(self),
                    t@,
                ),
                Event::Activated(now) => activated_post(old(self), final(self), now, r),
                Event::RowActivated(i, now) => exists|ok: bool|
                    row_activated_post(old(self), final(self), i, now, ok) && (if ok {
                        r matches Action::Launch(j) && j == i
                    } else {
                        r matches Action::Nothing
                    }),
            },
    {
        match event {
            Event::TextChanged(t) => {
                self.text_changed(t.as_str());
                Action::Nothing
            },
            Event::Activated(now) => self.activate(now),
            Event::RowActivated(i, now) => {
                if self.activate_entry(i, now) {
                    Action::Launch(i)
                } else {
                    Action::Nothing
                }
            },
        }
    }
}

} // verus!
