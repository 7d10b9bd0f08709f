//! Per-language line counts of a repository: their order by amount of code,
//! the selection of languages a request asks for, the language at a given
//! rank, and the totals a badge reports.
use vstd::prelude::*;
use crate::text::{chars_of, contains_string, split_chars, split_on, string_of};

verus! {

/// The counts of one language in a repository.
#[derive(Clone, Debug)]
pub struct LanguageStats {
    /// The display name of the language.
    pub name: String,
    /// Lines of code.
    pub code: usize,
    /// Comment lines.
    pub comments: usize,
    /// Blank lines.
    pub blanks: usize,
    /// Files of the language.
    pub files: usize,
}

impl LanguageStats {
    /// A copy of these counts.
    pub fn duplicate(&self) -> (r: LanguageStats)
        ensures
            r == *self,
    {
        LanguageStats {
            name: self.name.clone(),
            code: self.code,
            comments: self.comments,
            blanks: self.blanks,
            files: self.files,
        }
    }
}

// ---------------------------------------------------------------------------
// Order by amount of code
// ---------------------------------------------------------------------------

/// Where `x` goes among `s` when it is placed after every element whose code
/// count is at least its own, scanning from the end.
pub open spec fn insert_position(s: Seq<LanguageStats>, x: LanguageStats) -> int
    decreases s.len(),
{
    if s.len() == 0 {
        0
    } else if s.last().code >= x.code {
        s.len() as int
    } else {
        insert_position(s.drop_last(), x)
    }
}

/// `s` with `x` inserted after the elements with at least as much code.
pub open spec fn insert_desc(s: Seq<LanguageStats>, x: LanguageStats) -> Seq<LanguageStats> {
    s.insert(insert_position(s, x), x)
}

/// `s` ordered by code count, most first; elements with equal counts keep
/// their order (a stable sort, as `sort_by_key` with `Reverse` gives it).
pub open spec fn sorted_by_code(s: Seq<LanguageStats>) -> Seq<LanguageStats>
    decreases s.len(),
{
    if s.len() == 0 {
        s
    } else {
        insert_desc(sorted_by_code(s.drop_last()), s.last())
    }
}

/// Whether the code counts of `s` never increase.
pub open spec fn is_descending(s: Seq<LanguageStats>) -> bool {
    forall|i: int, j: int| 0 <= i < j < s.len() ==> #[trigger] s[i].code >= #[trigger] s[j].code
}

/// The elements of `s` whose code count is `c`, in order.
pub open spec fn with_code(s: Seq<LanguageStats>, c: usize) -> Seq<LanguageStats>
    decreases s.len(),
{
    if s.len() == 0 {
        s
    } else if s.last().code == c {
        with_code(s.drop_last(), c).push(s.last())
    } else {
        with_code(s.drop_last(), c)
    }
}

proof fn lemma_insert_position(s: Seq<LanguageStats>, x: LanguageStats)
    ensures
        0 <= insert_position(s, x) <= s.len(),
        insert_position(s, x) > 0 ==> s[insert_position(s, x) - 1].code >= x.code,
        forall|k: int| insert_position(s, x) <= k < s.len() ==> #[trigger] s[k].code < x.code,
    decreases s.len(),
{
    if s.len() > 0 && s.last().code < x.code {
        lemma_insert_position(s.drop_last(), x);
        let p = insert_position(s.drop_last(), x);
        assert forall|k: int| p <= k < s.len() implies #[trigger] s[k].code < x.code by {
            if k < s.len() - 1 {
                assert(s.drop_last()[k] == s[k]);
            }
        }
    }
}

/// Sorts `entries` by code count, most first, keeping the order of entries
/// with equal counts.
pub fn sort_by_code_desc(entries: Vec<LanguageStats>) -> (r: Vec<LanguageStats>)
    ensures
        r@ == sorted_by_code(entries@),
{
    let ghost orig = entries@;
    let mut rest = entries;
    let mut out: Vec<LanguageStats> = Vec::new();
    let mut taken: usize = 0;
    let n = rest.len();
    while rest.len() > 0
        invariant
            n == orig.len(),
            taken + rest@.len() == n,
            rest@ == orig.subrange(taken as int, n as int),
            out@ == sorted_by_code(orig.subrange(0, taken as int)),
        decreases rest@.len(),
    {
        let x = rest.remove(0);
        let ghost prefix = orig.subrange(0, taken + 1);
        assert(prefix.drop_last() =~= orig.subrange(0, taken as int));
        assert(prefix.last() == x);
        let mut j: usize = out.len();
        assert(out@.subrange(0, j as int) =~= out@);
        while j > 0 && out[j - 1].code < x.code
            invariant
                j <= out@.len(),
                insert_position(out@, x) == insert_position(out@.subrange(0, j as int), x),
            decreases j,
        {
            let ghost t = out@.subrange(0, j as int);
            assert(t.drop_last() =~= out@.subrange(0, j - 1));
            j = j - 1;
        }
        proof {
            let t = out@.subrange(0, j as int);
            if j > 0 {
                assert(t.last() == out@[j - 1]);
            }
            assert(insert_position(t, x) == j);
        }
        out.insert(j, x);
        taken = taken + 1;
        assert(rest@ =~= orig.subrange(taken as int, n as int));
    }
    assert(orig.subrange(0, n as int) =~= orig);
    out
}

/// Inserting keeps the code counts descending.
proof fn lemma_insert_desc_sorted(s: Seq<LanguageStats>, x: LanguageStats)
    requires
        is_descending(s),
    ensures
        is_descending(insert_desc(s, x)),
{
    lemma_insert_position(s, x);
    let p = insert_position(s, x);
    let r = insert_desc(s, x);
    assert forall|i: int, j: int| 0 <= i < j < r.len() implies #[trigger] r[i].code
        >= #[trigger] r[j].code by {
        if i < p && j < p {
            assert(r[i] == s[i] && r[j] == s[j]);
        } else if i < p && j == p {
            assert(r[i] == s[i]);
            assert(s[i].code >= s[p - 1].code);
        } else if i < p {
            assert(r[i] == s[i] && r[j] == s[j - 1]);
        } else if i == p {
            assert(r[j] == s[j - 1]);
        } else {
            assert(r[i] == s[i - 1] && r[j] == s[j - 1]);
        }
    }
}

/// The result of the sort is ordered by code count, most first.
pub proof fn law_sorted_by_code_is_descending(s: Seq<LanguageStats>)
    ensures
        is_descending(sorted_by_code(s)),
    decreases s.len(),
{
    if s.len() > 0 {
        law_sorted_by_code_is_descending(s.drop_last());
        lemma_insert_desc_sorted(sorted_by_code(s.drop_last()), s.last());
    }
}

/// The sort neither loses nor adds an entry.
pub proof fn law_sorted_by_code_is_permutation(s: Seq<LanguageStats>)
    ensures
        sorted_by_code(s).to_multiset() == s.to_multiset(),
    decreases s.len(),
{
    broadcast use vstd::seq_lib::group_to_multiset_ensures;

    if s.len() > 0 {
        law_sorted_by_code_is_permutation(s.drop_last());
        let t = sorted_by_code(s.drop_last());
        let x = s.last();
        lemma_insert_position(t, x);
        let p = insert_position(t, x);
        let a = t.subrange(0, p);
        let b = t.subrange(p, t.len() as int);
        assert(t =~= a + b);
        vstd::seq_lib::lemma_multiset_commutative(a, b);
        vstd::seq_lib::lemma_multiset_commutative(a.push(x), b);
        assert(insert_desc(t, x) =~= a.push(x) + b);
        assert(s =~= s.drop_last().push(x));
    }
}

proof fn lemma_with_code_concat(a: Seq<LanguageStats>, b: Seq<LanguageStats>, c: usize)
    ensures
        with_code(a + b, c) == with_code(a, c) + with_code(b, c),
    decreases b.len(),
{
    if b.len() == 0 {
        assert(a + b =~= a);
        assert(with_code(a, c) + with_code(b, c) =~= with_code(a, c));
    } else {
        lemma_with_code_concat(a, b.drop_last(), c);
        assert((a + b).drop_last() =~= a + b.drop_last());
        assert((a + b).last() == b.last());
        if b.last().code == c {
            assert(with_code(a, c) + with_code(b, c) =~= (with_code(a, c) + with_code(
                b.drop_last(),
                c,
            )).push(b.last()));
        }
    }
}

proof fn lemma_with_code_all_below(s: Seq<LanguageStats>, c: usize)
    requires
        forall|k: int| 0 <= k < s.len() ==> #[trigger] s[k].code < c,
    ensures
        with_code(s, c) == Seq::<LanguageStats>::empty(),
    decreases s.len(),
{
    if s.len() > 0 {
        assert forall|k: int| 0 <= k < s.drop_last().len() implies #[trigger] s.drop_last()[k].code
            < c by {
            assert(s.drop_last()[k] == s[k]);
        }
        lemma_with_code_all_below(s.drop_last(), c);
    }
}

/// Entries with equal code counts come out of the sort in the order they
/// went in.
pub proof fn law_sorted_by_code_is_stable(s: Seq<LanguageStats>, c: usize)
    ensures
        with_code(sorted_by_code(s), c) == with_code(s, c),
    decreases s.len(),
{
    if s.len() > 0 {
        law_sorted_by_code_is_stable(s.drop_last(), c);
        let t = sorted_by_code(s.drop_last());
        let x = s.last();
        lemma_insert_position(t, x);
        let p = insert_position(t, x);
        let a = t.subrange(0, p);
        let b = t.subrange(p, t.len() as int);
        assert(t =~= a + b);
        assert(insert_desc(t, x) =~= a + (seq![x] + b));
        lemma_with_code_concat(a, b, c);
        lemma_with_code_concat(a, seq![x] + b, c);
        lemma_with_code_concat(seq![x], b, c);
        assert(seq![x].drop_last() =~= Seq::<LanguageStats>::empty());
        assert(seq![x].last() == x);
        assert(with_code(Seq::<LanguageStats>::empty(), c) =~= Seq::<LanguageStats>::empty());
        assert(with_code(seq![x], c) =~= if x.code == c {
            seq![x]
        } else {
            Seq::<LanguageStats>::empty()
        });
        if x.code == c {
            assert forall|k: int| 0 <= k < b.len() implies #[trigger] b[k].code < c by {
                assert(b[k] == t[p + k]);
            }
            lemma_with_code_all_below(b, c);
            assert(with_code(a, c) + with_code(b, c) =~= with_code(a, c));
            assert(with_code(seq![x], c) =~= seq![x]);
            assert(with_code(seq![x] + b, c) =~= seq![x]);
        } else {
            assert(with_code(seq![x], c) =~= Seq::<LanguageStats>::empty());
            assert(with_code(seq![x] + b, c) =~= with_code(b, c));
        }
    }
}

// ---------------------------------------------------------------------------
// Selection of requested languages
// ---------------------------------------------------------------------------

/// The display name of the language that `s` names, matched without regard
/// to case, as `LanguageType::from_str` finds it.
pub uninterp spec fn language_named(s: Seq<char>) -> Option<Seq<char>>;

/// `s.parse::<tokei::LanguageType>()` followed by `name()`: the display name
/// of the language that `s` names. The result is a function of `s` alone
/// (the crate lower-cases `s` and compares it with the lower-cased names of
/// its languages); which texts name a language is not stated here.
#[verifier::external_body]
fn parse_language(s: &str) -> (r: Option<String>)
    ensures
        match r {
            Some(n) => language_named(s@) == Some(n@),
            None => language_named(s@) is None,
        },
{
    match s.parse::<tokei::LanguageType>() {
        Ok(l) => Some(l.name().to_string()),
        Err(_) => None,
    }
}

/// The display names of the languages among the non-empty `pieces`, in
/// order.
pub open spec fn named_languages(pieces: Seq<Seq<char>>) -> Seq<Seq<char>>
    decreases pieces.len(),
{
    if pieces.len() == 0 {
        Seq::<Seq<char>>::empty()
    } else if pieces.last().len() == 0 {
        named_languages(pieces.drop_last())
    } else {
        match language_named(pieces.last()) {
            Some(n) => named_languages(pieces.drop_last()).push(n),
            None => named_languages(pieces.drop_last()),
        }
    }
}

/// The languages requested by a comma-separated list.
pub open spec fn requested_languages(types: Seq<char>) -> Seq<Seq<char>> {
    named_languages(split_on(types, ','))
}

/// The entries of `s` whose language is among `names`, in order.
pub open spec fn keep_named(s: Seq<LanguageStats>, names: Seq<Seq<char>>) -> Seq<LanguageStats>
    decreases s.len(),
{
    if s.len() == 0 {
        s
    } else if names.contains(s.last().name@) {
        keep_named(s.drop_last(), names).push(s.last())
    } else {
        keep_named(s.drop_last(), names)
    }
}

/// The entries a request with the language list `types` reports on: all of
/// them where the list names no language, else those of the named languages.
pub open spec fn selected_languages(s: Seq<LanguageStats>, types: Seq<char>) -> Seq<
    LanguageStats,
> {
    let names = requested_languages(types);
    if names.len() == 0 {
        s
    } else {
        keep_named(s, names)
    }
}

/// The entries that a request with the comma-separated language list
/// `types` reports on, in their order.
pub fn select_languages(entries: Vec<LanguageStats>, types: &str) -> (r: Vec<LanguageStats>)
    ensures
        r@ == selected_languages(entries@, types@),
{
    let chars = chars_of(types);
    let pieces = split_chars(chars.as_slice(), ',');
    let ghost spieces = split_on(chars@, ',');
    let mut names: Vec<String> = Vec::new();
    let mut i: usize = 0;
    while i < pieces.len()
        invariant
            i <= pieces@.len() == spieces.len(),
            forall|k: int| 0 <= k < pieces@.len() ==> #[trigger] pieces@[k]@ == spieces[k],
            names@.map_values(|n: String| n@) == named_languages(spieces.subrange(0, i as int)),
        decreases pieces@.len() - i,
    {
        let ghost prev = spieces.subrange(0, i as int);
        assert(spieces.subrange(0, i + 1).drop_last() =~= prev);
        assert(spieces.subrange(0, i + 1).last() == pieces@[i as int]@);
        if pieces[i].len() > 0 {
            let piece = string_of(pieces[i].as_slice());
            match parse_language(piece.as_str()) {
                Some(n) => {
                    names.push(n);
                },
                None => {},
            }
        }
        i = i + 1;
        assert(names@.map_values(|n: String| n@) =~= named_languages(
            spieces.subrange(0, i as int),
        ));
    }
    assert(spieces.subrange(0, pieces@.len() as int) =~= spieces);
    let ghost snames = names@.map_values(|n: String| n@);
    if names.len() == 0 {
        return entries;
    }
    let ghost orig = entries@;
    let mut rest = entries;
    let mut out: Vec<LanguageStats> = Vec::new();
    let mut taken: usize = 0;
    let n = rest.len();
    while rest.len() > 0
        invariant
            n == orig.len(),
            taken + rest@.len() == n,
            rest@ == orig.subrange(taken as int, n as int),
            snames == names@.map_values(|n: String| n@),
            out@ == keep_named(orig.subrange(0, taken as int), snames),
        decreases rest@.len(),
    {
        let x = rest.remove(0);
        let ghost prefix = orig.subrange(0, taken + 1);
        assert(prefix.drop_last() =~= orig.subrange(0, taken as int));
        assert(prefix.last() == x);
        if contains_string(&names, &x.name) {
            out.push(x);
        }
        taken = taken + 1;
        assert(rest@ =~= orig.subrange(taken as int, n as int));
    }
    assert(orig.subrange(0, n as int) =~= orig);
    out
}

/// The positions in `s` of the entries that `keep_named` keeps.
pub open spec fn kept_positions(s: Seq<LanguageStats>, names: Seq<Seq<char>>) -> Seq<int>
    decreases s.len(),
{
    if s.len() == 0 {
        Seq::<int>::empty()
    } else if names.contains(s.last().name@) {
        kept_positions(s.drop_last(), names).push(s.len() - 1)
    } else {
        kept_positions(s.drop_last(), names)
    }
}

proof fn lemma_keep_named_exact(s: Seq<LanguageStats>, names: Seq<Seq<char>>)
    ensures
        forall|i: int|
            0 <= i < keep_named(s, names).len() ==> names.contains(
                #[trigger] keep_named(s, names)[i].name@,
            ) && s.contains(keep_named(s, names)[i]),
        forall|i: int|
            0 <= i < s.len() && names.contains(#[trigger] s[i].name@) ==> keep_named(
                s,
                names,
            ).contains(s[i]),
    decreases s.len(),
{
    if s.len() > 0 {
        let p = s.drop_last();
        lemma_keep_named_exact(p, names);
        let k = keep_named(s, names);
        let kp = keep_named(p, names);
        assert forall|i: int| 0 <= i < k.len() implies names.contains(#[trigger] k[i].name@)
            && s.contains(k[i]) by {
            if i < kp.len() {
                assert(k[i] == kp[i]);
                assert(0 <= i < kp.len());
                assert(names.contains(kp[i].name@));
                assert(p.contains(kp[i]));
                let j = choose|j: int| 0 <= j < p.len() && p[j] == kp[i];
                assert(s[j] == p[j]);
            } else {
                assert(k[i] == s.last());
                assert(s[s.len() - 1] == s.last());
            }
        }
        assert forall|i: int| 0 <= i < s.len() && names.contains(#[trigger] s[i].name@) implies k.contains(
            s[i],
        ) by {
            if i < p.len() {
                assert(p[i] == s[i]);
                let j = choose|j: int| 0 <= j < kp.len() && kp[j] == p[i];
                assert(k[j] == kp[j]);
            } else {
                assert(k[k.len() - 1] == s.last());
            }
        }
    }
}

/// When the language list names at least one language, the selection holds
/// exactly the entries of the named languages: every selected entry is one of
/// the given entries and its language is named, and every given entry whose
/// language is named is selected, even where that leaves none.
pub proof fn law_selection_is_exactly_the_named(s: Seq<LanguageStats>, types: Seq<char>)
    requires
        requested_languages(types).len() > 0,
    ensures
        forall|i: int|
            0 <= i < selected_languages(s, types).len() ==> requested_languages(types).contains(
                #[trigger] selected_languages(s, types)[i].name@,
            ) && s.contains(selected_languages(s, types)[i]),
        forall|i: int|
            0 <= i < s.len() && requested_languages(types).contains(#[trigger] s[i].name@)
                ==> selected_languages(s, types).contains(s[i]),
{
    let names = requested_languages(types);
    let sel = selected_languages(s, types);
    lemma_keep_named_exact(s, names);
    assert(sel == keep_named(s, names));
    assert forall|i: int| 0 <= i < sel.len() implies names.contains(#[trigger] sel[i].name@)
        && s.contains(sel[i]) by {
        assert(names.contains(keep_named(s, names)[i].name@));
    }
    assert forall|i: int| 0 <= i < s.len() && names.contains(#[trigger] s[i].name@) implies sel.contains(
        s[i],
    ) by {
    }
}

/// A request without a language list reports on every language.
pub proof fn law_no_type_list_reports_all(s: Seq<LanguageStats>)
    ensures
        selected_languages(s, Seq::<char>::empty()) == s,
{
    let pieces = split_on(Seq::<char>::empty(), ',');
    assert(pieces =~= seq![Seq::<char>::empty()]);
    assert(pieces.drop_last() =~= Seq::<Seq<char>>::empty());
    assert(pieces.last() =~= Seq::<char>::empty());
    assert(pieces.last().len() == 0);
    assert(named_languages(pieces.drop_last()) =~= Seq::<Seq<char>>::empty());
    assert(named_languages(pieces) =~= Seq::<Seq<char>>::empty());
}

proof fn lemma_keep_named_subsequence(s: Seq<LanguageStats>, names: Seq<Seq<char>>)
    ensures
        kept_positions(s, names).len() == keep_named(s, names).len(),
        forall|k: int|
            0 <= k < kept_positions(s, names).len() ==> 0 <= #[trigger] kept_positions(s, names)[k]
                < s.len() && keep_named(s, names)[k] == s[kept_positions(s, names)[k]],
        forall|k: int, l: int|
            0 <= k < l < kept_positions(s, names).len() ==> kept_positions(s, names)[k]
                < kept_positions(s, names)[l],
    decreases s.len(),
{
    if s.len() > 0 {
        lemma_keep_named_subsequence(s.drop_last(), names);
    }
}

/// Selecting languages keeps the order by code count.
pub proof fn law_selection_keeps_order(s: Seq<LanguageStats>, types: Seq<char>)
    requires
        is_descending(s),
    ensures
        is_descending(selected_languages(s, types)),
{
    let names = requested_languages(types);
    if names.len() > 0 {
        lemma_keep_named_subsequence(s, names);
        let r = keep_named(s, names);
        let idx = kept_positions(s, names);
        assert forall|i: int, j: int| 0 <= i < j < r.len() implies #[trigger] r[i].code
            >= #[trigger] r[j].code by {
            assert(idx[i] < idx[j]);
            assert(s[idx[i]].code >= s[idx[j]].code);
        }
    }
}

// ---------------------------------------------------------------------------
// The language at a rank
// ---------------------------------------------------------------------------

/// The text that a badge shows for the language at `rank` (counted from 1)
/// among `s`: nothing where it is not asked for, `No Languages` where there
/// are none, `N/A` where the rank is out of range.
pub open spec fn ranking_text(show: bool, s: Seq<LanguageStats>, rank: usize) -> Seq<char> {
    if !show {
        Seq::<char>::empty()
    } else if s.len() == 0 {
        "No Languages"@
    } else if rank == 0 || rank > s.len() {
        "N/A"@
    } else {
        s[rank - 1].name@
    }
}

/// The name of the language at `rank` (counted from 1) among `entries`.
pub fn ranking_language(show: bool, entries: &Vec<LanguageStats>, rank: usize) -> (r: String)
    ensures
        r@ == ranking_text(show, entries@, rank),
{
    if !show {
        String::new()
    } else if entries.len() == 0 {
        String::from_str("No Languages")
    } else if rank == 0 || rank > entries.len() {
        String::from_str("N/A")
    } else {
        entries[rank - 1].name.clone()
    }
}

/// The badge names the entry at the asked rank (counted from 1) when it is
/// shown and the rank is within the entries; `N/A` for a rank outside them;
/// `No Languages` where there are none; nothing when it is not shown.
pub proof fn law_rank_names_entry(show: bool, s: Seq<LanguageStats>, rank: usize)
    ensures
        !show ==> ranking_text(show, s, rank).len() == 0,
        show && s.len() == 0 ==> ranking_text(show, s, rank) == "No Languages"@,
        show && s.len() > 0 && (rank < 1 || rank > s.len()) ==> ranking_text(show, s, rank)
            == "N/A"@,
        show && 1 <= rank <= s.len() ==> ranking_text(show, s, rank) == s[rank - 1].name@,
{
}

/// The language at rank 1 after sorting has at least as much code as every
/// language.
pub proof fn law_first_rank_is_most_code(s: Seq<LanguageStats>)
    requires
        s.len() > 0,
    ensures
        ranking_text(true, sorted_by_code(s), 1) == sorted_by_code(s)[0].name@,
        forall|k: int| 0 <= k < s.len() ==> #[trigger] s[k].code <= sorted_by_code(s)[0].code,
{
    broadcast use vstd::seq_lib::group_to_multiset_ensures;

    law_sorted_by_code_is_permutation(s);
    law_sorted_by_code_is_descending(s);
    let t = sorted_by_code(s);
    assert(t.len() == s.len()) by {
        assert(t.to_multiset().len() == s.to_multiset().len());
    }
    assert forall|k: int| 0 <= k < s.len() implies #[trigger] s[k].code <= t[0].code by {
        assert(s.to_multiset().count(s[k]) > 0);
        assert(t.contains(s[k]));
        let m = choose|m: int| 0 <= m < t.len() && t[m] == s[k];
        if m > 0 {
            assert(t[0].code >= t[m].code);
        }
    }
}

// ---------------------------------------------------------------------------
// Totals
// ---------------------------------------------------------------------------

pub open spec fn sum_code(s: Seq<LanguageStats>) -> nat
    decreases s.len(),
{
    if s.len() == 0 {
        0
    } else {
        sum_code(s.drop_last()) + s.last().code as nat
    }
}

pub open spec fn sum_comments(s: Seq<LanguageStats>) -> nat
    decreases s.len(),
{
    if s.len() == 0 {
        0
    } else {
        sum_comments(s.drop_last()) + s.last().comments as nat
    }
}

pub open spec fn sum_blanks(s: Seq<LanguageStats>) -> nat
    decreases s.len(),
{
    if s.len() == 0 {
        0
    } else {
        sum_blanks(s.drop_last()) + s.last().blanks as nat
    }
}

pub open spec fn sum_files(s: Seq<LanguageStats>) -> nat
    decreases s.len(),
{
    if s.len() == 0 {
        0
    } else {
        sum_files(s.drop_last()) + s.last().files as nat
    }
}

/// Whether the totals of `s`, lines included, fit in a `usize`.
pub open spec fn totals_fit(s: Seq<LanguageStats>) -> bool {
    sum_code(s) + sum_comments(s) + sum_blanks(s) <= usize::MAX && sum_files(s) <= usize::MAX
}

/// The counts of several languages added together.
pub struct Totals {
    pub code: usize,
    pub comments: usize,
    pub blanks: usize,
    pub files: usize,
}

impl Totals {
    /// All lines: code, comments and blanks.
    pub open spec fn spec_lines(&self) -> nat {
        (self.code + self.comments + self.blanks) as nat
    }

    /// All lines: code, comments and blanks.
    pub fn lines(&self) -> (r: usize)
        requires
            self.code + self.comments + self.blanks <= usize::MAX,
        ensures
            r == self.spec_lines(),
    {
        self.code + self.comments + self.blanks
    }
}

proof fn lemma_sums_prefix(s: Seq<LanguageStats>, i: int)
    requires
        0 <= i <= s.len(),
    ensures
        sum_code(s.subrange(0, i)) <= sum_code(s),
        sum_comments(s.subrange(0, i)) <= sum_comments(s),
        sum_blanks(s.subrange(0, i)) <= sum_blanks(s),
        sum_files(s.subrange(0, i)) <= sum_files(s),
    decreases s.len() - i,
{
    if i < s.len() {
        lemma_sums_prefix(s, i + 1);
        assert(s.subrange(0, i + 1).drop_last() =~= s.subrange(0, i));
    } else {
        assert(s.subrange(0, i) =~= s);
    }
}

proof fn lemma_keep_named_sums(s: Seq<LanguageStats>, names: Seq<Seq<char>>)
    ensures
        sum_code(keep_named(s, names)) <= sum_code(s),
        sum_comments(keep_named(s, names)) <= sum_comments(s),
        sum_blanks(keep_named(s, names)) <= sum_blanks(s),
        sum_files(keep_named(s, names)) <= sum_files(s),
    decreases s.len(),
{
    if s.len() > 0 {
        lemma_keep_named_sums(s.drop_last(), names);
        if names.contains(s.last().name@) {
            assert(keep_named(s, names).drop_last() =~= keep_named(s.drop_last(), names));
        }
    }
}

/// When the totals of all languages fit in a `usize`, so do those of any
/// selection of them.
pub proof fn lemma_selection_fits(s: Seq<LanguageStats>, types: Seq<char>)
    requires
        totals_fit(s),
    ensures
        totals_fit(selected_languages(s, types)),
{
    lemma_keep_named_sums(s, requested_languages(types));
}

/// Whether the totals of `entries` fit in a `usize`.
pub fn counts_fit(entries: &Vec<LanguageStats>) -> (r: bool)
    ensures
        r == totals_fit(entries@),
{
    let ghost s = entries@;
    let mut lines: usize = 0;
    let mut files: usize = 0;
    let mut i: usize = 0;
    while i < entries.len()
        invariant
            i <= s.len(),
            s == entries@,
            lines as nat == sum_code(s.subrange(0, i as int)) + sum_comments(
                s.subrange(0, i as int),
            ) + sum_blanks(s.subrange(0, i as int)),
            files as nat == sum_files(s.subrange(0, i as int)),
        decreases s.len() - i,
    {
        assert(s.subrange(0, i + 1).drop_last() =~= s.subrange(0, i as int));
        let e = &entries[i];
        if e.code > usize::MAX - lines {
            proof {
                lemma_sums_prefix(s, i + 1);
            }
            return false;
        }
        let l1 = lines + e.code;
        if e.comments > usize::MAX - l1 {
            proof {
                lemma_sums_prefix(s, i + 1);
            }
            return false;
        }
        let l2 = l1 + e.comments;
        if e.blanks > usize::MAX - l2 {
            proof {
                lemma_sums_prefix(s, i + 1);
            }
            return false;
        }
        if e.files > usize::MAX - files {
            proof {
                lemma_sums_prefix(s, i + 1);
            }
            return false;
        }
        lines = l2 + e.blanks;
        files = files + e.files;
        i = i + 1;
    }
    assert(s.subrange(0, s.len() as int) =~= s);
    true
}

/// The counts of `entries` added together.
pub fn totals(entries: &Vec<LanguageStats>) -> (r: Totals)
    requires
        totals_fit(entries@),
    ensures
        r.code == sum_code(entries@),
        r.comments == sum_comments(entries@),
        r.blanks == sum_blanks(entries@),
        r.files == sum_files(entries@),
{
    let ghost s = entries@;
    let mut t = Totals { code: 0, comments: 0, blanks: 0, files: 0 };
    let mut i: usize = 0;
    while i < entries.len()
        invariant
            i <= s.len(),
            s == entries@,
            totals_fit(s),
            t.code == sum_code(s.subrange(0, i as int)),
            t.comments == sum_comments(s.subrange(0, i as int)),
            t.blanks == sum_blanks(s.subrange(0, i as int)),
            t.files == sum_files(s.subrange(0, i as int)),
        decreases s.len() - i,
    {
        assert(s.subrange(0, i + 1).drop_last() =~= s.subrange(0, i as int));
        proof {
            lemma_sums_prefix(s, i + 1);
        }
        let e = &entries[i];
        t = Totals {
            code: t.code + e.code,
            comments: t.comments + e.comments,
            blanks: t.blanks + e.blanks,
            files: t.files + e.files,
        };
        i = i + 1;
    }
    assert(s.subrange(0, s.len() as int) =~= s);
    t
}

} // verus!
