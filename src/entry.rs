//! One launchable entry: its metadata, its state for the current query, and
//! the order in which entries are ranked.
use crate::matcher::{fuzzy_score, occurs_in_order, skim_score};
use crate::text::{chars_of, compare_chars, flip, lex_cmp, lower_of, lowercase};
use crate::text::{lemma_lex_cmp_equal, lemma_lex_cmp_flip, lemma_lex_cmp_trans};
use std::cmp::Ordering;
use vstd::prelude::*;

verus! {

/// The score of every entry under the empty query.
pub const NEUTRAL_SCORE: i64 = 0;

/// A launchable item.
pub struct AppEntry {
    /// Stable identifier, unique among the entries.
    pub id: String,
    /// Display name.
    pub name: String,
    pub description: Option<String>,
    pub keywords: Vec<String>,
    /// Command line that launches the item.
    pub command: String,
    /// Whether the command runs in a terminal.
    pub terminal: bool,
    /// Directory to launch in.
    pub working_dir: Option<String>,
    pub icon: Option<String>,
    /// Match score for the current query (higher is better).
    pub score: i64,
    /// Whether the entry is left out of the list for the current query.
    pub hidden: bool,
    /// Number of recorded launches.
    pub count: u64,
    /// Ordinal of the last recorded launch, 0 if none.
    pub last_used: u64,
}

/// The strings searched for a query, in order of priority: the name, the
/// description if any, then each keyword.
pub open spec fn search_fields(
    name: Seq<char>,
    description: Option<Seq<char>>,
    keywords: Seq<Seq<char>>,
) -> Seq<Seq<char>> {
    seq![name] + match description {
        Some(d) => seq![d],
        None => Seq::<Seq<char>>::empty(),
    } + keywords
}

/// The score of the first field, from index `i` on, that the query matches,
/// both taken to lower case.
pub open spec fn first_hit(fields: Seq<Seq<char>>, q: Seq<char>, i: int) -> Option<i64>
    decreases fields.len() - i,
{
    if i < 0 || i >= fields.len() {
        None
    } else {
        match skim_score(lower_of(fields[i]), lower_of(q)) {
            Some(s) => Some(s),
            None => first_hit(fields, q, i + 1),
        }
    }
}

/// Where no field from index `i` on matches, there is no hit.
pub proof fn lemma_no_hit(fields: Seq<Seq<char>>, q: Seq<char>, i: int)
    requires
        0 <= i,
        forall|j: int|
            i <= j < fields.len() ==> skim_score(lower_of(#[trigger] fields[j]), lower_of(q)).is_none(),
    ensures
        first_hit(fields, q, i).is_none(),
    decreases fields.len() - i,
{
    if i < fields.len() {
        lemma_no_hit(fields, q, i + 1);
    }
}

/// Whether the query, in lower case, occurs in order in some field, in
/// lower case.
pub open spec fn some_field_matches(fields: Seq<Seq<char>>, q: Seq<char>) -> bool {
    exists|j: int| 0 <= j < fields.len() && occurs_in_order(lower_of(q), lower_of(#[trigger] fields[j]))
}

/// The match of a query against an entry's fields: the neutral score for the
/// empty query, else the first field that matches, else none.
pub open spec fn match_of(fields: Seq<Seq<char>>, q: Seq<char>) -> Option<i64> {
    if q.len() == 0 {
        Some(NEUTRAL_SCORE)
    } else {
        first_hit(fields, q, 0)
    }
}

/// The ranking order: visible before hidden, then higher score, higher
/// launch count, later last use, then the case-folded name, then the id.
pub open spec fn rank_cmp(a: &AppEntry, b: &AppEntry) -> Ordering {
    if a.hidden != b.hidden {
        if a.hidden {
            Ordering::Greater
        } else {
            Ordering::Less
        }
    } else if a.score != b.score {
        if a.score > b.score {
            Ordering::Less
        } else {
            Ordering::Greater
        }
    } else if a.count != b.count {
        if a.count > b.count {
            Ordering::Less
        } else {
            Ordering::Greater
        }
    } else if a.last_used != b.last_used {
        if a.last_used > b.last_used {
            Ordering::Less
        } else {
            Ordering::Greater
        }
    } else if lex_cmp(lower_of(a.name@), lower_of(b.name@)) != Ordering::Equal {
        lex_cmp(lower_of(a.name@), lower_of(b.name@))
    } else {
        lex_cmp(a.id@, b.id@)
    }
}

/// The ranking order is a strict total order: no entry ranks before itself,
/// swapping two entries flips their comparison, ranking before is
/// transitive, and two entries with different ids never compare equal.
pub proof fn lemma_rank_total_order(a: &AppEntry, b: &AppEntry, c: &AppEntry)
    ensures
        rank_cmp(a, a) == Ordering::Equal,
        rank_cmp(b, a) == flip(rank_cmp(a, b)),
        rank_cmp(a, b) == Ordering::Less && rank_cmp(b, c) == Ordering::Less ==> rank_cmp(a, c)
            == Ordering::Less,
        a.id@ != b.id@ ==> rank_cmp(a, b) != Ordering::Equal,
{
    lemma_lex_cmp_equal(lower_of(a.name@), lower_of(a.name@));
    lemma_lex_cmp_equal(a.id@, a.id@);
    lemma_lex_cmp_flip(lower_of(a.name@), lower_of(b.name@));
    lemma_lex_cmp_flip(a.id@, b.id@);
    lemma_lex_cmp_equal(a.id@, b.id@);
    lemma_lex_cmp_equal(lower_of(a.name@), lower_of(b.name@));
    lemma_lex_cmp_equal(lower_of(b.name@), lower_of(c.name@));
    if rank_cmp(a, b) == Ordering::Less && rank_cmp(b, c) == Ordering::Less {
        if lex_cmp(lower_of(a.name@), lower_of(b.name@)) == Ordering::Less
            && lex_cmp(lower_of(b.name@), lower_of(c.name@)) == Ordering::Less {
            lemma_lex_cmp_trans(lower_of(a.name@), lower_of(b.name@), lower_of(c.name@));
        }
        if lex_cmp(a.id@, b.id@) == Ordering::Less && lex_cmp(b.id@, c.id@) == Ordering::Less {
            lemma_lex_cmp_trans(a.id@, b.id@, c.id@);
        }
    }
}

impl AppEntry {
    pub open spec fn keyword_views(&self) -> Seq<Seq<char>> {
        self.keywords@.map_values(|k: String| k@)
    }

    pub open spec fn description_view(&self) -> Option<Seq<char>> {
        match self.description {
            Some(d) => Some(d@),
            None => None,
        }
    }

    /// The fields that a query is matched against.
    pub open spec fn fields(&self) -> Seq<Seq<char>> {
        search_fields(self.name@, self.description_view(), self.keyword_views())
    }

    /// The metadata and history weight are those of `other`.
    pub open spec fn same_item(&self, other: &AppEntry) -> bool {
        &&& self.id@ == other.id@
        &&& self.name@ == other.name@
        &&& self.description == other.description
        &&& self.keywords@ == other.keywords@
        &&& self.command@ == other.command@
        &&& self.terminal == other.terminal
        &&& self.working_dir == other.working_dir
        &&& self.icon == other.icon
        &&& self.count == other.count
        &&& self.last_used == other.last_used
    }

    /// A visible entry with the neutral score and no launch history.
    pub fn new(
        id: String,
        name: String,
        description: Option<String>,
        keywords: Vec<String>,
        command: String,
    ) -> (r: AppEntry)
        ensures
            r.id@ == id@,
            r.name@ == name@,
            r.description == description,
            r.keywords@ == keywords@,
            r.command@ == command@,
            !r.terminal,
            r.working_dir.is_none(),
            r.icon.is_none(),
            r.score == NEUTRAL_SCORE,
            !r.hidden,
            r.count == 0,
            r.last_used == 0,
    {
        AppEntry {
            id,
            name,
            description,
            keywords,
            command,
            terminal: false,
            working_dir: None,
            icon: None,
            score: NEUTRAL_SCORE,
            hidden: false,
            count: 0,
            last_used: 0,
        }
    }

    /// Sets the state that a match result gives: shown with its score on a
    /// match, hidden with the score cleared otherwise.
    pub fn apply_match(&mut self, m: Option<i64>)
        ensures
            final(self).same_item(old(self)),
            final(self).hidden == m.is_none(),
            final(self).score == match m {
                Some(s) => s,
                None => NEUTRAL_SCORE,
            },
    {
        match m {
            Some(s) => {
                self.score = s;
                self.hidden = false;
            },
            None => self.conceal(),
        }
    }

    /// Hides the entry and clears its score, without matching.
    pub fn conceal(&mut self)
        ensures
            final(self).same_item(old(self)),
            final(self).hidden,
            final(self).score == NEUTRAL_SCORE,
    {
        self.score = NEUTRAL_SCORE;
        self.hidden = true;
    }

    /// Whether the entry is left out of the list.
    pub fn hidden(&self) -> (r: bool)
        ensures
            r == self.hidden,
    {
        self.hidden
    }

    /// Matches the query against the name, then the description, then each
    /// keyword, all taken to lower case, and returns the score of the first
    /// field that matches.
    pub fn field_match(&self, query: &str) -> (r: Option<i64>)
        ensures
            r == first_hit(self.fields(), query@, 0),
            r.is_some() == some_field_matches(self.fields(), query@),
    {
        let ghost fields = self.fields();
        let ghost d: int = if self.description.is_some() { 1 } else { 0 };
        assert(fields[0] == self.name@);
        assert(fields.len() == 1 + d + self.keywords.len());
        let q = lowercase(query);
        let r = fuzzy_score(lowercase(self.name.as_str()).as_str(), q.as_str());
        if r.is_some() {
            assert(occurs_in_order(lower_of(query@), lower_of(fields[0])));
            return r;
        }
        assert(!occurs_in_order(lower_of(query@), lower_of(fields[0])));
        assert(first_hit(fields, query@, 0) == first_hit(fields, query@, 1));
        match &self.description {
            Some(desc) => {
                assert(fields[1] == desc@);
                let r = fuzzy_score(lowercase(desc.as_str()).as_str(), q.as_str());
                if r.is_some() {
                    assert(occurs_in_order(lower_of(query@), lower_of(fields[1])));
                    return r;
                }
                assert(!occurs_in_order(lower_of(query@), lower_of(fields[1])));
                assert(first_hit(fields, query@, 1) == first_hit(fields, query@, 2));
            },
            None => {},
        }
        let mut i: usize = 0;
        while i < self.keywords.len()
            invariant
                fields == self.fields(),
                q@ == lower_of(query@),
                d == (if self.description.is_some() { 1int } else { 0int }),
                fields.len() == 1 + d + self.keywords.len(),
                i <= self.keywords.len(),
                first_hit(fields, query@, 0) == first_hit(fields, query@, 1 + d + i),
                forall|j: int|
                    0 <= j < 1 + d + i ==> !occurs_in_order(
                        lower_of(query@),
                        lower_of(#[trigger] fields[j]),
                    ),
            decreases self.keywords.len() - i,
        {
            assert(fields[1 + d + i] == self.keywords@[i as int]@);
            let r = fuzzy_score(lowercase(self.keywords[i].as_str()).as_str(), q.as_str());
            if r.is_some() {
                assert(occurs_in_order(lower_of(query@), lower_of(fields[1 + d + i])));
                return r;
            }
            i = i + 1;
        }
        None
    }

    /// Recomputes the score and visibility for the query text: every entry
    /// matches the empty query with the neutral score; otherwise the first
    /// field that matches decides, and an entry that matches nowhere is hidden.
    pub fn update_match(&mut self, query: &str)
        ensures
            final(self).same_item(old(self)),
            final(self).hidden == match_of(old(self).fields(), query@).is_none(),
            final(self).score == match match_of(old(self).fields(), query@) {
                Some(s) => s,
                None => NEUTRAL_SCORE,
            },
            query@.len() == 0 ==> !final(self).hidden && final(self).score == NEUTRAL_SCORE,
            query@.len() > 0 ==> (final(self).hidden <==> !some_field_matches(
                old(self).fields(),
                query@,
            )),
            query@.len() > 0 && (forall|j: int|
                0 <= j < old(self).fields().len() ==> skim_score(
                    lower_of(#[trigger] old(self).fields()[j]),
                    lower_of(query@),
                ).is_none()) ==> final(self).hidden,
    {
        proof {
            if forall|j: int|
                0 <= j < self.fields().len() ==> skim_score(
                    lower_of(#[trigger] self.fields()[j]),
                    lower_of(query@),
                ).is_none() {
                lemma_no_hit(self.fields(), query@, 0);
            }
        }
        if query.unicode_len() == 0 {
            self.apply_match(Some(NEUTRAL_SCORE));
        } else {
            let m = self.field_match(query);
            self.apply_match(m);
        }
    }

    /// Sets the launch hints: terminal, working directory and icon.
    pub fn set_launch_hints(
        &mut self,
        terminal: bool,
        working_dir: Option<String>,
        icon: Option<String>,
    )
        ensures
            final(self).terminal == terminal,
            final(self).working_dir == working_dir,
            final(self).icon == icon,
            final(self).id@ == old(self).id@,
            final(self).name@ == old(self).name@,
            final(self).description == old(self).description,
            final(self).keywords@ == old(self).keywords@,
            final(self).command@ == old(self).command@,
            final(self).score == old(self).score,
            final(self).hidden == old(self).hidden,
            final(self).count == old(self).count,
            final(self).last_used == old(self).last_used,
    {
        self.terminal = terminal;
        self.working_dir = working_dir;
        self.icon = icon;
    }

    /// Sets the history weight.
    pub fn set_history(&mut self, count: u64, last_used: u64)
        ensures
            final(self).count == count,
            final(self).last_used == last_used,
            final(self).id@ == old(self).id@,
            final(self).name@ == old(self).name@,
            final(self).description == old(self).description,
            final(self).keywords@ == old(self).keywords@,
            final(self).command@ == old(self).command@,
            final(self).terminal == old(self).terminal,
            final(self).working_dir == old(self).working_dir,
            final(self).icon == old(self).icon,
            final(self).score == old(self).score,
            final(self).hidden == old(self).hidden,
    {
        self.count = count;
        self.last_used = last_used;
    }

    /// Compares two entries in ranking order (`Less`: `self` ranks first).
    pub fn cmp(&self, other: &AppEntry) -> (r: Ordering)
        ensures
            r == rank_cmp(self, other),
    {
        if self.hidden != other.hidden {
            if self.hidden {
                Ordering::Greater
            } else {
                Ordering::Less
            }
        } else if self.score != other.score {
            if self.score > other.score {
                Ordering::Less
            } else {
                Ordering::Greater
            }
        } else if self.count != other.count {
            if self.count > other.count {
                Ordering::Less
            } else {
                Ordering::Greater
            }
        } else if self.last_used != other.last_used {
            if self.last_used > other.last_used {
                Ordering::Less
            } else {
                Ordering::Greater
            }
        } else {
            let a = chars_of(lowercase(self.name.as_str()).as_str());
            let b = chars_of(lowercase(other.name.as_str()).as_str());
            let by_name = compare_chars(&a, &b);
            match by_name {
                Ordering::Equal => compare_chars(&chars_of(self.id.as_str()), &chars_of(other.id.as_str())),
                _ => by_name,
            }
        }
    }
}

} // verus!
