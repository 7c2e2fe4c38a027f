//! The card store: the catalog of card records keyed by id, loaded once from
//! the texts of a directory of JSON files, and the three queries it answers.

use vstd::prelude::*;
use vstd::string::StrSliceExecFns;
use vstd::string::StringExecFns;
use crate::card::{parse_card_json, parsed_card, CardRecord, CardView};
use crate::reply::{Reply, ReplyView};
use crate::text::{
    dec_digits, fmt_usize, parse_usize, parsed_usize, parses_as_usize, str_eq,
};

verus! {

/// A query one chat command asks of the card store.
pub enum TarotEvent {
    AllTitles,
    Random,
    Single(usize),
}

/// Why a query could not be answered.
#[derive(PartialEq, Eq, Structural, Debug, Clone, Copy)]
pub enum TarotError {
    NotFound,
}

/// The catalog: all loaded card records, ordered by ascending id, plus the
/// base URL that image paths are resolved against.
pub struct TarotStore {
    cards: Vec<(usize, CardRecord)>,
    base_url: String,
}

/// The record stored under `id`, read from the entry sequence; a later entry
/// with the same id wins.
pub open spec fn seq_lookup(s: Seq<(usize, CardView)>, id: usize) -> Option<CardView>
    decreases s.len(),
{
    if s.len() == 0 {
        None
    } else if s.last().0 == id {
        Some(s.last().1)
    } else {
        seq_lookup(s.drop_last(), id)
    }
}

proof fn lemma_lookup_concat(a: Seq<(usize, CardView)>, b: Seq<(usize, CardView)>, id: usize)
    ensures
        seq_lookup(a + b, id) == if seq_lookup(b, id) is Some {
            seq_lookup(b, id)
        } else {
            seq_lookup(a, id)
        },
    decreases b.len(),
{
    if b.len() == 0 {
        assert(a + b =~= a);
    } else {
        assert((a + b).drop_last() =~= a + b.drop_last());
        assert((a + b).last() == b.last());
        lemma_lookup_concat(a, b.drop_last(), id);
    }
}

proof fn lemma_lookup_absent(s: Seq<(usize, CardView)>, id: usize)
    requires
        forall|i: int| 0 <= i < s.len() ==> (#[trigger] s[i]).0 != id,
    ensures
        seq_lookup(s, id) is None,
    decreases s.len(),
{
    if s.len() > 0 {
        lemma_lookup_absent(s.drop_last(), id);
    }
}

proof fn lemma_lookup_present(s: Seq<(usize, CardView)>, i: int)
    requires
        0 <= i < s.len(),
    ensures
        seq_lookup(s, s[i].0) is Some,
    decreases s.len(),
{
    if s.last().0 != s[i].0 {
        lemma_lookup_present(s.drop_last(), i);
    }
}

proof fn lemma_lookup_index(s: Seq<(usize, CardView)>, id: usize)
    requires
        seq_lookup(s, id) is Some,
    ensures
        exists|i: int| 0 <= i < s.len() && #[trigger] s[i] == (id, seq_lookup(s, id)->0),
    decreases s.len(),
{
    if s.last().0 == id {
        assert(s[s.len() - 1] == (id, seq_lookup(s, id)->0));
    } else {
        lemma_lookup_index(s.drop_last(), id);
        let i = choose|i: int|
            0 <= i < s.drop_last().len() && #[trigger] s.drop_last()[i] == (
                id,
                seq_lookup(s.drop_last(), id)->0,
            );
        assert(s[i] == (id, seq_lookup(s, id)->0));
    }
}

impl TarotStore {
    /// The catalog's entries, in storage order.
    pub closed spec fn entries(&self) -> Seq<(usize, CardView)> {
        self.cards@.map_values(|e: (usize, CardRecord)| (e.0, e.1@))
    }

    /// The base URL that image paths are resolved against.
    pub closed spec fn spec_base_url(&self) -> Seq<char> {
        self.base_url@
    }

    /// Well-formed: the entries' ids are strictly ascending.
    pub open spec fn wf(&self) -> bool {
        forall|i: int, j: int|
            0 <= i < j < self.entries().len() ==> (#[trigger] self.entries()[i]).0
                < (#[trigger] self.entries()[j]).0
    }

    /// The record loaded under `id`, if any.
    pub open spec fn spec_get(&self, id: usize) -> Option<CardView> {
        seq_lookup(self.entries(), id)
    }

    /// On a well-formed store the entries are exactly the loaded ids, each
    /// once: every entry is found under its id, and every loaded id has its
    /// entry. With `titles_text` one line per entry, the all-titles listing
    /// thus holds one line per loaded id, in strictly ascending id order.
    pub proof fn lemma_entries_are_the_loaded_ids(&self)
        requires
            self.wf(),
        ensures
            forall|i: int|
                0 <= i < self.entries().len() ==> #[trigger] self.spec_get(self.entries()[i].0)
                    == Some(self.entries()[i].1),
            forall|id: usize|
                #[trigger] self.spec_get(id) is Some ==> exists|i: int|
                    0 <= i < self.entries().len() && self.entries()[i] == (
                        id,
                        self.spec_get(id)->0,
                    ),
    {
        let e = self.entries();
        assert forall|i: int|
            0 <= i < e.len() implies #[trigger] self.spec_get(e[i].0) == Some(e[i].1) by {
            let pre = e.subrange(0, i);
            let post = e.subrange(i + 1, e.len() as int);
            assert(e =~= pre + seq![e[i]] + post);
            assert forall|m: int| 0 <= m < post.len() implies (#[trigger] post[m]).0 != e[i].0 by {
                assert(post[m] == e[i + 1 + m]);
                assert(self.entries()[i].0 < self.entries()[i + 1 + m].0);
            }
            lemma_lookup_absent(post, e[i].0);
            lemma_lookup_concat(pre + seq![e[i]], post, e[i].0);
            lemma_lookup_concat(pre, seq![e[i]], e[i].0);
        }
        assert forall|id: usize| #[trigger] self.spec_get(id) is Some implies exists|i: int|
            0 <= i < e.len() && e[i] == (id, self.spec_get(id)->0) by {
            lemma_lookup_index(e, id);
        }
    }

    /// Stores `card` under `id`, replacing any record already there.
    fn insert_card(&mut self, id: usize, card: CardRecord)
        requires
            old(self).wf(),
        ensures
            final(self).wf(),
            final(self).spec_base_url() == old(self).spec_base_url(),
            final(self).spec_get(id) == Some(card@),
            forall|x: usize| x != id ==> final(self).spec_get(x) == old(self).spec_get(x),
            final(self).entries().len() <= old(self).entries().len() + 1,
    {
        let ghost e0 = self.entries();
        let ghost v = card@;
        let n = self.cards.len();
        let mut p: usize = 0;
        while p < n && self.cards[p].0 < id
            invariant
                0 <= p <= n,
                n == self.cards.len(),
                *self == *old(self),
                forall|k: int| 0 <= k < p ==> (#[trigger] self.entries()[k]).0 < id,
            decreases n - p,
        {
            assert(self.entries()[p as int].0 == self.cards@[p as int].0);
            p += 1;
        }
        proof {
            assert(forall|k: int|
                0 <= k < e0.len() ==> e0[k] == (self.cards@[k].0, self.cards@[k].1@));
        }
        if p < n && self.cards[p].0 == id {
            self.cards.remove(p);
            self.cards.insert(p, (id, card));
            proof {
                let e1 = self.entries();
                let pre = e0.subrange(0, p as int);
                let post = e0.subrange(p + 1, e0.len() as int);
                assert(e1 =~= pre + seq![(id, v)] + post);
                assert(e0 =~= pre + seq![e0[p as int]] + post);
                Self::lemma_surgery(e0, pre, seq![(id, v)], post, seq![e0[p as int]], id, v);
                assert forall|i: int, j: int| 0 <= i < j < e1.len() implies (#[trigger] e1[i]).0
                    < (#[trigger] e1[j]).0 by {
                    assert(e0[p as int].0 == id);
                    if i == p {
                        assert(e1[j] == e0[j]);
                    } else if j == p {
                        assert(e1[i] == e0[i]);
                    } else {
                        assert(e1[i] == e0[i] && e1[j] == e0[j]);
                    }
                }
            }
        } else {
            self.cards.insert(p, (id, card));
            proof {
                let e1 = self.entries();
                let pre = e0.subrange(0, p as int);
                let post = e0.subrange(p as int, e0.len() as int);
                assert(e1 =~= pre + seq![(id, v)] + post);
                assert(e0 =~= pre + Seq::<(usize, CardView)>::empty() + post);
                Self::lemma_surgery(e0, pre, seq![(id, v)], post, Seq::empty(), id, v);
                assert forall|i: int, j: int| 0 <= i < j < e1.len() implies (#[trigger] e1[i]).0
                    < (#[trigger] e1[j]).0 by {
                    if p < e0.len() {
                        assert(e0[p as int].0 > id);
                    }
                    if j < p {
                        assert(e1[i] == e0[i] && e1[j] == e0[j]);
                    } else if i < p && j == p {
                        assert(e1[i] == e0[i]);
                    } else if i < p && j > p {
                        assert(e1[i] == e0[i] && e1[j] == e0[j - 1]);
                        assert(e0[p as int].0 > id);
                    } else if i == p {
                        assert(e1[j] == e0[j - 1] && j - 1 >= p);
                        assert(e0[p as int].0 > id);
                        if j - 1 > p {
                            assert(e0[p as int].0 < e0[j - 1].0);
                        }
                    } else {
                        assert(e1[i] == e0[i - 1] && e1[j] == e0[j - 1]);
                    }
                }
            }
        }
    }

    /// The two rearrangements share one lookup argument: with the middle
    /// holding `(id, v)` and everything after it keyed above `id`, the new
    /// sequence stores `v` under `id` and keeps every other key.
    proof fn lemma_surgery(
        e0: Seq<(usize, CardView)>,
        pre: Seq<(usize, CardView)>,
        mid: Seq<(usize, CardView)>,
        post: Seq<(usize, CardView)>,
        oldmid: Seq<(usize, CardView)>,
        id: usize,
        v: CardView,
    )
        requires
            mid == seq![(id, v)],
            e0 == pre + oldmid + post,
            forall|i: int| 0 <= i < post.len() ==> (#[trigger] post[i]).0 != id,
            forall|i: int| 0 <= i < oldmid.len() ==> (#[trigger] oldmid[i]).0 == id,
        ensures
            seq_lookup(pre + mid + post, id) == Some(v),
            forall|x: usize| x != id ==> seq_lookup(pre + mid + post, x) == seq_lookup(e0, x),
    {
        lemma_lookup_absent(post, id);
        lemma_lookup_concat(pre + mid, post, id);
        lemma_lookup_concat(pre, mid, id);
        assert(seq_lookup(mid, id) == Some(v));
        assert forall|x: usize| x != id implies seq_lookup(pre + mid + post, x) == seq_lookup(
            e0,
            x,
        ) by {
            lemma_lookup_concat(pre + mid, post, x);
            lemma_lookup_concat(pre, mid, x);
            lemma_lookup_concat(pre + oldmid, post, x);
            lemma_lookup_concat(pre, oldmid, x);
            assert(mid.drop_last() =~= Seq::<(usize, CardView)>::empty());
            assert(seq_lookup(mid.drop_last(), x) is None);
            assert(seq_lookup(mid, x) is None);
            lemma_lookup_absent(oldmid, x);
        }
    }

    /// Looks one record up by id.
    pub fn get_card(&self, id: usize) -> (r: Option<&CardRecord>)
        requires
            self.wf(),
        ensures
            match r {
                Some(c) => self.spec_get(id) == Some(c@),
                None => self.spec_get(id) is None,
            },
    {
        let n = self.cards.len();
        let mut i: usize = 0;
        while i < n
            invariant
                self.wf(),
                0 <= i <= n,
                n == self.cards.len(),
                forall|k: int| 0 <= k < i ==> (#[trigger] self.entries()[k]).0 != id,
            decreases n - i,
        {
            if self.cards[i].0 == id {
                proof {
                    let e = self.entries();
                    assert(e[i as int] == (self.cards@[i as int].0, self.cards@[i as int].1@));
                    let pre = e.subrange(0, i as int);
                    let post = e.subrange(i + 1, e.len() as int);
                    assert(e =~= pre + seq![e[i as int]] + post);
                    assert forall|m: int| 0 <= m < post.len() implies (#[trigger] post[m]).0
                        != id by {
                        assert(post[m] == e[i + 1 + m]);
                        assert(self.entries()[i as int].0 < self.entries()[i + 1 + m].0);
                    }
                    lemma_lookup_absent(post, id);
                    lemma_lookup_concat(pre + seq![e[i as int]], post, id);
                    lemma_lookup_concat(pre, seq![e[i as int]], id);
                }
                return Some(&self.cards[i].1);
            }
            assert(self.entries()[i as int].0 == self.cards@[i as int].0);
            i += 1;
        }
        proof {
            lemma_lookup_absent(self.entries(), id);
        }
        None
    }
}

/// How many characters stand before the first underscore of `s` (all of `s`
/// where it has none).
pub open spec fn prefix_len(s: Seq<char>) -> int
    decreases s.len(),
{
    if s.len() == 0 {
        0
    } else if s[0] == '_' {
        0
    } else {
        1 + prefix_len(s.drop_first())
    }
}

proof fn lemma_prefix_len(s: Seq<char>, k: int)
    requires
        0 <= k <= s.len(),
        forall|j: int| 0 <= j < k ==> s[j] != '_',
        k == s.len() || s[k] == '_',
    ensures
        prefix_len(s) == k,
    decreases k,
{
    if k == 0 {
    } else {
        assert(s[0] != '_');
        assert forall|j: int| 0 <= j < k - 1 implies s.drop_first()[j] != '_' by {
            assert(s.drop_first()[j] == s[j + 1]);
        }
        if k < s.len() {
            assert(s.drop_first()[k - 1] == s[k]);
        }
        lemma_prefix_len(s.drop_first(), k - 1);
    }
}

/// Whether a file name carries the `json` extension: it ends in `.json`, and
/// that dot is not its first character.
pub open spec fn has_json_ext(name: Seq<char>) -> bool {
    name.len() >= 6 && name.subrange(name.len() - 5, name.len() as int) == ".json"@
}

/// The card id a file name encodes: for a `.json` file whose name up to the
/// first underscore is a numeral, that numeral's value; otherwise nothing.
pub open spec fn spec_file_card_id(name: Seq<char>) -> Option<usize> {
    let tok = name.subrange(0, prefix_len(name));
    if has_json_ext(name) && parses_as_usize(tok) {
        Some(parsed_usize(tok) as usize)
    } else {
        None
    }
}

fn underscore_split(name: &str) -> (k: usize)
    ensures
        0 <= k <= name@.len(),
        k as int == prefix_len(name@),
{
    let n = name.unicode_len();
    let mut k: usize = 0;
    while k < n
        invariant
            0 <= k <= n,
            n == name@.len(),
            forall|j: int| 0 <= j < k ==> name@[j] != '_',
        decreases n - k,
    {
        if name.get_char(k) == '_' {
            proof {
                lemma_prefix_len(name@, k as int);
            }
            return k;
        }
        k += 1;
    }
    proof {
        lemma_prefix_len(name@, k as int);
    }
    k
}

/// Reads the card id off one file name, as the loader does: the name must end
/// in `.json`, and its leading token, up to the first underscore, must be a
/// numeral.
pub fn entry_id(name: &str) -> (r: Option<usize>)
    ensures
        r == spec_file_card_id(name@),
{
    let n = name.unicode_len();
    if n < 6 {
        return None;
    }
    let suffix = name.substring_char(n - 5, n);
    if !str_eq(suffix, ".json") {
        return None;
    }
    let k = underscore_split(name);
    let tok = name.substring_char(0, k);
    parse_usize(tok)
}

/// The record that a sequence of `(file name, file text)` pairs loads under
/// `id`: the last pair whose name encodes `id` and whose text decodes to a
/// record wins; pairs that fail either step are skipped.
pub open spec fn load_lookup(files: Seq<(String, String)>, id: usize) -> Option<CardView>
    decreases files.len(),
{
    if files.len() == 0 {
        None
    } else if spec_file_card_id(files.last().0@) == Some(id) && parsed_card(files.last().1@)
        is Some {
        parsed_card(files.last().1@)
    } else {
        load_lookup(files.drop_last(), id)
    }
}

impl TarotStore {
    /// Builds the catalog from the `(file name, file text)` pairs found under
    /// the data directory, keeping for each id the record of the last pair
    /// that loads it, and the base URL for image links.
    pub fn new(files: Vec<(String, String)>, base_url: String) -> (r: Self)
        ensures
            r.wf(),
            r.spec_base_url() == base_url@,
            forall|id: usize| #[trigger] r.spec_get(id) == load_lookup(files@, id),
    {
        let ghost burl = base_url@;
        let mut store = TarotStore { cards: Vec::new(), base_url };
        proof {
            assert(store.entries() =~= Seq::<(usize, CardView)>::empty());
        }
        let n = files.len();
        let mut k: usize = 0;
        while k < n
            invariant
                0 <= k <= n,
                n == files@.len(),
                store.wf(),
                store.spec_base_url() == burl,
                forall|id: usize| #[trigger] store.spec_get(id) == load_lookup(
                    files@.subrange(0, k as int),
                    id,
                ),
            decreases n - k,
        {
            let ghost pre = files@.subrange(0, k as int);
            let ghost ext = files@.subrange(0, k + 1);
            proof {
                assert(ext.drop_last() =~= pre);
                assert(ext.last() == files@[k as int]);
            }
            let entry = &files[k];
            if let Some(id) = entry_id(entry.0.as_str()) {
                if let Some(card) = parse_card_json(entry.1.as_str()) {
                    let ghost cv = card@;
                    store.insert_card(id, card);
                    proof {
                        assert forall|x: usize| #[trigger] store.spec_get(x) == load_lookup(
                            ext,
                            x,
                        ) by {
                            if x == id {
                                assert(load_lookup(ext, x) == Some(cv));
                            } else {
                                assert(load_lookup(ext, x) == load_lookup(pre, x));
                            }
                        }
                    }
                } else {
                    proof {
                        assert forall|x: usize| #[trigger] store.spec_get(x) == load_lookup(
                            ext,
                            x,
                        ) by {
                            assert(load_lookup(ext, x) == load_lookup(pre, x));
                        }
                    }
                }
            } else {
                proof {
                    assert forall|x: usize| #[trigger] store.spec_get(x) == load_lookup(
                        ext,
                        x,
                    ) by {
                        assert(load_lookup(ext, x) == load_lookup(pre, x));
                    }
                }
            }
            k += 1;
        }
        proof {
            assert(files@.subrange(0, n as int) =~= files@);
        }
        store
    }
}

/// The given optional text, or the default where it is absent.
pub open spec fn opt_or(o: Option<Seq<char>>, d: Seq<char>) -> Seq<char> {
    match o {
        Some(s) => s,
        None => d,
    }
}

/// One line of the all-titles listing: the id, a colon and a space, then the
/// card's title or the fixed placeholder.
pub open spec fn title_line(e: (usize, CardView)) -> Seq<char> {
    dec_digits(e.0 as nat) + ": "@ + opt_or(e.1.title, "無法獲得卡片"@)
}

/// The all-titles listing: one line per entry, in entry order, joined by
/// newlines.
pub open spec fn titles_text(s: Seq<(usize, CardView)>) -> Seq<char>
    decreases s.len(),
{
    if s.len() == 0 {
        Seq::empty()
    } else if s.len() == 1 {
        title_line(s[0])
    } else {
        titles_text(s.drop_last()) + "\n"@ + title_line(s.last())
    }
}

/// The lines of the all-titles listing, one per entry, in entry order.
pub open spec fn title_lines(s: Seq<(usize, CardView)>) -> Seq<Seq<char>> {
    s.map_values(|e: (usize, CardView)| title_line(e))
}

/// Lines joined by single newlines.
pub open spec fn join_lines(ls: Seq<Seq<char>>) -> Seq<char>
    decreases ls.len(),
{
    if ls.len() == 0 {
        Seq::empty()
    } else if ls.len() == 1 {
        ls[0]
    } else {
        join_lines(ls.drop_last()) + "\n"@ + ls.last()
    }
}

/// The all-titles listing holds exactly one line per entry, in entry order,
/// each line the entry's id, a colon and a space, then its title: the text is
/// the newline-join of those lines. On a well-formed store the entries' ids
/// ascend strictly, so the lines do too.
pub proof fn lemma_titles_one_line_per_entry(s: Seq<(usize, CardView)>)
    ensures
        title_lines(s).len() == s.len(),
        forall|i: int| 0 <= i < s.len() ==> title_lines(s)[i] == title_line(s[i]),
        titles_text(s) == join_lines(title_lines(s)),
    decreases s.len(),
{
    if s.len() > 1 {
        lemma_titles_one_line_per_entry(s.drop_last());
        assert(title_lines(s.drop_last()) =~= title_lines(s).drop_last());
        assert(titles_text(s) == join_lines(title_lines(s)));
    }
}

/// The text body of a single card's presentation: title, blank line, short
/// description, blank line, source URL, with fixed or empty placeholders for
/// absent fields.
pub open spec fn single_text(c: CardView) -> Seq<char> {
    opt_or(c.title, "未知卡片"@) + "\n\n"@ + opt_or(c.short_description, ""@) + "\n\n"@ + opt_or(
        c.source_url,
        ""@,
    )
}

/// The single-card text holds the card's title and its short description
/// verbatim: the title from the start, the description right after the first
/// blank line.
pub proof fn lemma_single_text_contains(c: CardView)
    requires
        c.title is Some,
        c.short_description is Some,
    ensures
        single_text(c).subrange(0, c.title->0.len() as int) == c.title->0,
        single_text(c).subrange(
            (c.title->0.len() + 2) as int,
            (c.title->0.len() + 2 + c.short_description->0.len()) as int,
        ) == c.short_description->0,
{
    reveal_strlit("\n\n");
    let t = c.title->0;
    let d = c.short_description->0;
    assert(single_text(c).subrange(0, t.len() as int) =~= t);
    assert(single_text(c).subrange((t.len() + 2) as int, (t.len() + 2 + d.len()) as int) =~= d);
}

/// The image URL of a single card's presentation: the base URL, a slash, then
/// the upright or reversed image path.
pub open spec fn image_url_text(base: Seq<char>, c: CardView, reversed: bool) -> Seq<char> {
    base + "/"@ + opt_or(if reversed { c.reversed_path } else { c.upright_path }, ""@)
}

/// A single card's presentation: its text body plus its image attachment.
pub open spec fn single_reply(base: Seq<char>, c: CardView, reversed: bool) -> ReplyView {
    ReplyView::TextImage { text: single_text(c), image_url: image_url_text(base, c, reversed) }
}

/// Appends the given optional text, or the default where it is absent.
fn append_or(out: &mut String, o: &Option<String>, d: &str)
    ensures
        final(out)@ == old(out)@ + opt_or(crate::card::opt_str_view(*o), d@),
{
    match o {
        Some(t) => out.append(t.as_str()),
        None => out.append(d),
    }
}

/// Relies on `rand::random_range` over `0..n`: the drawn index lies below the
/// bound; which index comes out is random, so nothing more is promised.
#[verifier::external_body]
fn pick_index(n: usize) -> (r: usize)
    requires
        0 < n,
    ensures
        r < n,
{
    rand::random_range(0..n)
}

/// Relies on `rand::random::<bool>`: a fair coin; nothing is promised of the
/// outcome.
#[verifier::external_body]
fn coin_flip() -> (r: bool) {
    rand::random::<bool>()
}

impl TarotStore {
    /// Whether `rep` presents some loaded card, in one of its two variants:
    /// what a random draw returns.
    pub open spec fn is_random_draw(&self, rep: ReplyView) -> bool {
        exists|id: usize, b: bool|
            #![auto]
            self.spec_get(id) is Some && rep == single_reply(
                self.spec_base_url(),
                self.spec_get(id)->0,
                b,
            )
    }

    /// The all-titles listing, as a text reply.
    pub fn get_all_tarot_title(&self) -> (r: Reply)
        ensures
            r@ == (ReplyView::Text { text: titles_text(self.entries()) }),
    {
        let mut text = String::new();
        let n = self.cards.len();
        let mut i: usize = 0;
        while i < n
            invariant
                0 <= i <= n,
                n == self.cards.len(),
                text@ == titles_text(self.entries().subrange(0, i as int)),
            decreases n - i,
        {
            if i > 0 {
                text.append("\n");
            }
            let entry = &self.cards[i];
            let num = fmt_usize(entry.0);
            text.append(num.as_str());
            text.append(": ");
            append_or(&mut text, &entry.1.title, "無法獲得卡片");
            proof {
                let e = self.entries();
                let pre = e.subrange(0, i as int);
                let ext = e.subrange(0, i + 1);
                assert(ext.drop_last() =~= pre);
                assert(ext.last() == e[i as int]);
                assert(e[i as int] == (self.cards@[i as int].0, self.cards@[i as int].1@));
                assert(text@ =~= titles_text(ext));
            }
            i += 1;
        }
        proof {
            assert(self.entries().subrange(0, n as int) =~= self.entries());
        }
        Reply::Text { text }
    }

    /// A single card's presentation, upright or reversed.
    pub fn get_single_tarot_info(&self, index: usize, reversed: bool) -> (r: Result<
        Reply,
        TarotError,
    >)
        requires
            self.wf(),
        ensures
            match r {
                Ok(rep) => self.spec_get(index) is Some && rep@ == single_reply(
                    self.spec_base_url(),
                    self.spec_get(index)->0,
                    reversed,
                ),
                Err(e) => self.spec_get(index) is None && e == TarotError::NotFound,
            },
    {
        let card = match self.get_card(index) {
            Some(c) => c,
            None => {
                return Err(TarotError::NotFound);
            },
        };
        let mut text = String::new();
        append_or(&mut text, &card.title, "未知卡片");
        text.append("\n\n");
        append_or(&mut text, &card.short_description, "");
        text.append("\n\n");
        append_or(&mut text, &card.source_url, "");
        let mut url = self.base_url.clone();
        url.append("/");
        if reversed {
            append_or(&mut url, &card.reversed_path, "");
        } else {
            append_or(&mut url, &card.upright_path, "");
        }
        proof {
            assert(text@ =~= single_text(card@));
            assert(url@ =~= image_url_text(self.spec_base_url(), card@, reversed));
        }
        Ok(Reply::TextImage { text, image_url: url })
    }

    /// A uniformly drawn card among the loaded ones, upright or reversed by a
    /// fair coin.
    pub fn get_random_tarot_info(&self) -> (r: Result<Reply, TarotError>)
        requires
            self.wf(),
        ensures
            match r {
                Ok(rep) => self.entries().len() > 0 && self.is_random_draw(rep@),
                Err(e) => self.entries().len() == 0 && e == TarotError::NotFound,
            },
    {
        let n = self.cards.len();
        if n == 0 {
            return Err(TarotError::NotFound);
        }
        let idx = pick_index(n);
        let id = self.cards[idx].0;
        proof {
            assert(self.entries()[idx as int].0 == id);
            lemma_lookup_present(self.entries(), idx as int);
        }
        let flip = coin_flip();
        let r = self.get_single_tarot_info(id, flip);
        proof {
            match &r {
                Ok(rep) => {
                    assert(self.spec_get(id) is Some && rep@ == single_reply(
                        self.spec_base_url(),
                        self.spec_get(id)->0,
                        flip,
                    ));
                },
                Err(_) => {
                    assert(false);
                },
            }
        }
        r
    }

    /// Answers one query: the full listing, a random draw, or one card by id.
    pub fn get_tarot_info(&self, tarot_info_event: TarotEvent) -> (r: Result<Reply, TarotError>)
        requires
            self.wf(),
        ensures
            match tarot_info_event {
                TarotEvent::AllTitles => r matches Ok(rep) && rep@ == (ReplyView::Text {
                    text: titles_text(self.entries()),
                }),
                TarotEvent::Random => match r {
                    Ok(rep) => self.entries().len() > 0 && self.is_random_draw(rep@),
                    Err(e) => self.entries().len() == 0 && e == TarotError::NotFound,
                },
                TarotEvent::Single(index) => match r {
                    Ok(rep) => self.spec_get(index) is Some && rep@ == single_reply(
                        self.spec_base_url(),
                        self.spec_get(index)->0,
                        false,
                    ),
                    Err(e) => self.spec_get(index) is None && e == TarotError::NotFound,
                },
            },
    {
        match tarot_info_event {
            TarotEvent::AllTitles => Ok(self.get_all_tarot_title()),
            TarotEvent::Random => self.get_random_tarot_info(),
            TarotEvent::Single(index) => self.get_single_tarot_info(index, false),
        }
    }
}

} // verus!
