//! `save-profile`: record which outputs are active right now, under a name.
//!
//! Only touches the config file; the display is left alone. Any output not yet
//! named gets registered under a generated name, so that no target id is ever
//! copied by hand.
//!
//! What is recorded is *only which outputs are on*, not their resolutions or
//! positions. Windows keeps its own database of layouts, and a second copy would
//! only go stale.

use vstd::prelude::*;
use vstd::string::*;

use crate::config::{first_name, is_first_name, Config, TargetEntry};
use crate::display::apply::{active_of, law_a_profile_is_a_set, resolved, same_outputs};
use crate::display::identity::Monitor;
use crate::error::{chain, Error};
use crate::names::NameMap;
use crate::text::{
    ascii_alphanumeric, ascii_digit, before, cat2, cat3, cat4, chars_of, decimal, decimal_text,
    is_ascii_alphanumeric, join, joined, lemma_before_total, lemma_before_transitive,
    lemma_decimal_reads_back, lower, lower_char, texts, to_lower_char,
};

verus! {

// ---------------------------------------------------------------------------
// Names
// ---------------------------------------------------------------------------

/// The runs of ASCII letters and digits in a text, in small letters, with an empty
/// run between any two other characters and at an end that is one.
pub open spec fn letter_runs(s: Seq<char>) -> Seq<Seq<char>>
    decreases s.len(),
{
    if s.len() == 0 {
        seq![Seq::empty()]
    } else {
        let before = letter_runs(s.drop_last());
        if ascii_alphanumeric(s.last()) {
            before.drop_last().push(before.last().push(lower_char(s.last())))
        } else {
            before.push(Seq::empty())
        }
    }
}

/// Those of some texts that are not empty.
pub open spec fn filled_runs(runs: Seq<Seq<char>>) -> Seq<Seq<char>>
    decreases runs.len(),
{
    if runs.len() == 0 {
        Seq::empty()
    } else if runs.last().len() == 0 {
        filled_runs(runs.drop_last())
    } else {
        filled_runs(runs.drop_last()).push(runs.last())
    }
}

/// A text as a name: its letters and digits, small, with one hyphen for whatever
/// stands between them.
pub open spec fn slug_of(s: Seq<char>) -> Seq<char> {
    join(filled_runs(letter_runs(s)), seq!['-'])
}

// There is always a run.
proof fn lemma_runs_nonempty(s: Seq<char>)
    ensures
        letter_runs(s).len() > 0,
    decreases s.len(),
{
    if s.len() > 0 {
        lemma_runs_nonempty(s.drop_last());
    }
}

/// Make a name of a text.
pub fn slug(s: &str) -> (r: String)
    ensures
        r@ == slug_of(s@),
{
    let cs = chars_of(s);
    let mut out = String::new();
    // Whether anything stands before the run that is being read.
    let mut any = false;
    // Whether nothing of that run has been read yet.
    let mut fresh = true;
    assert(cs@.take(0) =~= Seq::empty());
    assert(letter_runs(cs@.take(0)).drop_last() =~= Seq::empty());
    assert(filled_runs(letter_runs(cs@.take(0))) =~= Seq::empty()) by {
        reveal_with_fuel(filled_runs, 2);
    }
    for i in 0..cs.len()
        invariant
            cs@ == s@,
            letter_runs(s@.take(i as int)).len() > 0,
            out@ == slug_of(s@.take(i as int)),
            any == (filled_runs(letter_runs(s@.take(i as int)).drop_last()).len() > 0),
            fresh == (letter_runs(s@.take(i as int)).last().len() == 0),
    {
        let c = cs[i];
        let ghost now = s@.take(i as int);
        let ghost next = s@.take(i + 1);
        let ghost runs = letter_runs(now);
        let ghost done = filled_runs(runs.drop_last());
        assert(next.drop_last() =~= now);
        assert(next.last() == c);
        if is_ascii_alphanumeric(c) {
            let low = to_lower_char(c);
            let ghost grown = runs.last().push(low);
            proof {
                assert(runs.drop_last().push(grown).drop_last() =~= runs.drop_last());
                assert(filled_runs(letter_runs(next)) == done.push(grown));
                assert(done.push(grown).drop_last() =~= done);
                assert(done.push(runs.last()).drop_last() =~= done);
            }
            if fresh && any {
                out.push('-');
            }
            out.push(low);
            proof {
                if runs.last().len() == 0 {
                    assert(grown =~= seq![low]);
                    assert(filled_runs(runs) == done);
                } else {
                    assert(filled_runs(runs) == done.push(runs.last()));
                }
                assert(out@ =~= slug_of(next));
            }
            fresh = false;
        } else {
            proof {
                assert(runs.push(Seq::empty()).drop_last() =~= runs);
                assert(filled_runs(letter_runs(next)) == filled_runs(runs));
            }
            any = any || !fresh;
            fresh = true;
        }
    }
    assert(s@.take(s@.len() as int) =~= s@);
    out
}

/// Characters that a name is made of.
pub open spec fn name_char(c: char) -> bool {
    'a' <= c <= 'z' || ascii_digit(c) || c == '-'
}

/// A name is made of small letters, digits and hyphens; no hyphen stands at an
/// end, and no two stand together.
pub proof fn law_slugs_are_tidy(s: Seq<char>)
    ensures
        ({
            let t = slug_of(s);
            &&& forall|i: int| 0 <= i < t.len() ==> name_char(#[trigger] t[i])
            &&& t.len() > 0 ==> t[0] != '-' && t.last() != '-'
            &&& forall|i: int| 0 < i < t.len() && t[i - 1] == '-' ==> #[trigger] t[i] != '-'
        }),
{
    lemma_runs_are_letters(s);
    lemma_filled_runs(letter_runs(s));
    lemma_tidy(filled_runs(letter_runs(s)));
}

/// Whether runs are made of small letters and digits.
spec fn letters_only(runs: Seq<Seq<char>>) -> bool {
    forall|i: int, j: int|
        #![trigger runs[i][j]]
        0 <= i < runs.len() && 0 <= j < runs[i].len() ==> name_char(runs[i][j]) && runs[i][j] != '-'
}

proof fn lemma_runs_are_letters(s: Seq<char>)
    ensures
        letters_only(letter_runs(s)),
    decreases s.len(),
{
    lemma_runs_nonempty(s);
    if s.len() > 0 {
        lemma_runs_are_letters(s.drop_last());
        lemma_runs_nonempty(s.drop_last());
        let before = letter_runs(s.drop_last());
        let runs = letter_runs(s);
        assert forall|i: int, j: int|
            #![trigger runs[i][j]]
            0 <= i < runs.len() && 0 <= j < runs[i].len() implies name_char(runs[i][j])
            && runs[i][j] != '-' by {
            if i < before.len() - 1 {
                assert(runs[i][j] == before[i][j]);
            } else if i == before.len() - 1 && j < before[i].len() {
                assert(runs[i][j] == before[i][j]);
            }
        }
    }
}

proof fn lemma_filled_runs(runs: Seq<Seq<char>>)
    requires
        letters_only(runs),
    ensures
        letters_only(filled_runs(runs)),
        forall|i: int|
            0 <= i < filled_runs(runs).len() ==> (#[trigger] filled_runs(runs)[i]).len() > 0,
    decreases runs.len(),
{
    if runs.len() > 0 {
        let fewer = runs.drop_last();
        assert forall|i: int, j: int|
            #![trigger fewer[i][j]]
            0 <= i < fewer.len() && 0 <= j < fewer[i].len() implies name_char(fewer[i][j])
            && fewer[i][j] != '-' by {
            assert(fewer[i][j] == runs[i][j]);
        }
        lemma_filled_runs(fewer);
        let kept = filled_runs(runs);
        assert forall|i: int, j: int|
            #![trigger kept[i][j]]
            0 <= i < kept.len() && 0 <= j < kept[i].len() implies name_char(kept[i][j])
            && kept[i][j] != '-' by {
            if i < filled_runs(fewer).len() {
                assert(kept[i][j] == filled_runs(fewer)[i][j]);
            } else {
                assert(kept[i][j] == runs[runs.len() - 1][j]);
            }
        }
    }
}

proof fn lemma_tidy(runs: Seq<Seq<char>>)
    requires
        letters_only(runs),
        forall|i: int| 0 <= i < runs.len() ==> (#[trigger] runs[i]).len() > 0,
    ensures
        ({
            let t = join(runs, seq!['-']);
            &&& runs.len() > 0 ==> t.len() > 0
            &&& forall|i: int| 0 <= i < t.len() ==> name_char(#[trigger] t[i])
            &&& t.len() > 0 ==> t[0] != '-' && t.last() != '-'
            &&& forall|i: int| 0 < i < t.len() && t[i - 1] == '-' ==> #[trigger] t[i] != '-'
        }),
    decreases runs.len(),
{
    let t = join(runs, seq!['-']);
    if runs.len() == 1 {
        assert forall|i: int| 0 <= i < t.len() implies name_char(#[trigger] t[i]) && t[i] != '-' by {
            assert(t[i] == runs[0][i]);
        }
    } else if runs.len() > 1 {
        let fewer = runs.drop_last();
        assert forall|i: int, j: int|
            #![trigger fewer[i][j]]
            0 <= i < fewer.len() && 0 <= j < fewer[i].len() implies name_char(fewer[i][j])
            && fewer[i][j] != '-' by {
            assert(fewer[i][j] == runs[i][j]);
        }
        assert forall|i: int| 0 <= i < fewer.len() implies (#[trigger] fewer[i]).len() > 0 by {
            assert(fewer[i] == runs[i]);
        }
        lemma_tidy(fewer);
        let u = join(fewer, seq!['-']);
        let last = runs.last();
        assert(runs[runs.len() - 1] == last);
        assert forall|j: int| 0 <= j < last.len() implies name_char(#[trigger] last[j]) && last[j]
            != '-' by {
            assert(last[j] == runs[runs.len() - 1][j]);
        }
        assert forall|i: int| 0 <= i < t.len() implies name_char(#[trigger] t[i]) by {
            if i < u.len() {
                assert(t[i] == u[i]);
            } else if i > u.len() {
                assert(t[i] == last[i - u.len() - 1]);
            }
        }
        assert forall|i: int| 0 < i < t.len() && t[i - 1] == '-' implies #[trigger] t[i] != '-' by {
            if i < u.len() {
                assert(t[i] == u[i] && t[i - 1] == u[i - 1]);
            } else if i == u.len() {
                assert(t[i - 1] == u.last());
            } else {
                assert(t[i] == last[i - u.len() - 1]);
            }
        }
        assert(t.last() == last.last());
        assert(last[last.len() - 1] == last.last());
    }
}

/// A text of letters and digits is its own name, in small letters.
pub proof fn law_letters_and_digits_are_kept(s: Seq<char>)
    requires
        forall|i: int|
            0 <= i < s.len() ==> {
                ||| 'a' <= #[trigger] s[i] <= 'z'
                ||| 'A' <= s[i] <= 'Z'
                ||| '0' <= s[i] <= '9'
            },
    ensures
        slug_of(s) == lower(s),
{
    lemma_one_run(s);
    reveal_with_fuel(filled_runs, 2);
    let runs = letter_runs(s);
    assert(runs.drop_last() =~= Seq::empty());
    assert(filled_runs(Seq::<Seq<char>>::empty()) =~= Seq::empty());
    if s.len() == 0 {
        assert(slug_of(s) =~= lower(s));
    } else {
        assert(filled_runs(runs) =~= seq![lower(s)]);
        assert(filled_runs(runs)[0] == lower(s));
    }
}

// A text of letters and digits is one run.
proof fn lemma_one_run(s: Seq<char>)
    requires
        forall|i: int| 0 <= i < s.len() ==> ascii_alphanumeric(#[trigger] s[i]),
    ensures
        letter_runs(s) == seq![lower(s)],
    decreases s.len(),
{
    if s.len() > 0 {
        let less = s.drop_last();
        assert forall|i: int| 0 <= i < less.len() implies ascii_alphanumeric(#[trigger] less[i]) by {
            assert(less[i] == s[i]);
        }
        lemma_one_run(less);
        assert(ascii_alphanumeric(s[s.len() - 1]));
        assert(lower(s) =~= lower(less).push(lower_char(s.last())));
        assert(letter_runs(s) =~= seq![lower(s)]);
    } else {
        assert(lower(s) =~= Seq::empty());
    }
}

// Runs before and behind a gap are runs on their own.
proof fn lemma_runs_around_gap(a: Seq<char>, c: char, b: Seq<char>)
    requires
        !ascii_alphanumeric(c),
    ensures
        letter_runs(a + seq![c] + b) == letter_runs(a) + letter_runs(b),
    decreases b.len(),
{
    let all = a + seq![c] + b;
    lemma_runs_nonempty(b);
    if b.len() == 0 {
        assert(all =~= a.push(c));
        assert(all.drop_last() =~= a);
        assert(letter_runs(all) =~= letter_runs(a) + letter_runs(b));
    } else {
        let less = b.drop_last();
        lemma_runs_around_gap(a, c, less);
        lemma_runs_nonempty(less);
        assert(all.drop_last() =~= a + seq![c] + less);
        assert(all.last() == b.last());
        let (x, y) = (letter_runs(a), letter_runs(less));
        assert((x + y).drop_last() =~= x + y.drop_last());
        assert((x + y).last() == y.last());
        assert(letter_runs(all) =~= x + letter_runs(b));
    }
}

// Runs that are not empty, before and behind a gap.
proof fn lemma_filled_around(x: Seq<Seq<char>>, y: Seq<Seq<char>>)
    ensures
        filled_runs(x + y) == filled_runs(x) + filled_runs(y),
    decreases y.len(),
{
    if y.len() == 0 {
        assert(x + y =~= x);
        assert(filled_runs(x) + filled_runs(y) =~= filled_runs(x));
    } else {
        lemma_filled_around(x, y.drop_last());
        assert((x + y).drop_last() =~= x + y.drop_last());
        assert((x + y).last() == y.last());
        assert(filled_runs(x + y) =~= filled_runs(x) + filled_runs(y));
    }
}

// Texts in a row, before and behind.
proof fn lemma_join_around(x: Seq<Seq<char>>, y: Seq<Seq<char>>, sep: Seq<char>)
    requires
        x.len() > 0,
        y.len() > 0,
    ensures
        join(x + y, sep) == join(x, sep) + sep + join(y, sep),
    decreases y.len(),
{
    assert((x + y).drop_last() =~= x + y.drop_last());
    assert((x + y).last() == y.last());
    if y.len() == 1 {
        assert(x + y.drop_last() =~= x);
    } else {
        lemma_join_around(x, y.drop_last(), sep);
        assert(join(x + y, sep) =~= join(x, sep) + sep + join(y, sep));
    }
}

/// Whatever is no letter or digit becomes one hyphen between what stands around it, and
/// nothing at an end.
pub proof fn law_a_gap_becomes_one_hyphen(a: Seq<char>, c: char, b: Seq<char>)
    requires
        !('a' <= c <= 'z' || 'A' <= c <= 'Z' || '0' <= c <= '9'),
    ensures
        slug_of(a).len() == 0 ==> slug_of(a + seq![c] + b) == slug_of(b),
        slug_of(b).len() == 0 ==> slug_of(a + seq![c] + b) == slug_of(a),
        slug_of(a).len() > 0 && slug_of(b).len() > 0 ==> slug_of(a + seq![c] + b) == slug_of(a)
            + seq!['-'] + slug_of(b),
{
    lemma_runs_around_gap(a, c, b);
    let (x, y) = (letter_runs(a), letter_runs(b));
    lemma_filled_around(x, y);
    lemma_runs_are_letters(a);
    lemma_runs_are_letters(b);
    lemma_filled_runs(x);
    lemma_filled_runs(y);
    lemma_tidy(filled_runs(x));
    lemma_tidy(filled_runs(y));
    let (p, q) = (filled_runs(x), filled_runs(y));
    if p.len() == 0 {
        assert(p + q =~= q);
    } else if q.len() == 0 {
        assert(p + q =~= p);
    } else {
        lemma_join_around(p, q, seq!['-']);
    }
}

/// The name that an output would get if no other had it: what it calls itself, or
/// else its EDID id, or else its target id.
pub open spec fn base_name(m: Monitor) -> Seq<char> {
    let friendly = match m.name.friendly {
        Some(f) => slug_of(f@),
        None => Seq::empty(),
    };
    let edid = match m.name.edid {
        Some(e) => slug_of(e@),
        None => Seq::empty(),
    };
    if friendly.len() > 0 {
        friendly
    } else if edid.len() > 0 {
        edid
    } else {
        "target-"@ + decimal(m.key.target_id as nat)
    }
}

/// A name with a number behind it.
pub open spec fn suffixed(base: Seq<char>, n: nat) -> Seq<char> {
    base + "-"@ + decimal(n)
}

/// Whether a number is the least, from two on, with which a name is not in use.
pub open spec fn least_suffix(used: Set<Seq<char>>, base: Seq<char>, n: nat) -> bool {
    &&& n >= 2
    &&& !used.contains(suffixed(base, n))
    &&& forall|j: nat| 2 <= j < n ==> used.contains(#[trigger] suffixed(base, j))
}

/// The name for an output that has none yet, given the names that are in use.
pub open spec fn fresh_name(used: Set<Seq<char>>, m: Monitor) -> Seq<char> {
    let base = base_name(m);
    if !used.contains(base) {
        base
    } else {
        suffixed(base, choose|n: nat| least_suffix(used, base, n))
    }
}

// There is only one least number.
proof fn lemma_least_suffix(used: Set<Seq<char>>, base: Seq<char>, n: nat)
    requires
        least_suffix(used, base, n),
    ensures
        (choose|k: nat| least_suffix(used, base, k)) == n,
{
    let k = choose|k: nat| least_suffix(used, base, k);
    if k < n {
        assert(used.contains(suffixed(base, k)));
    }
    if n < k {
        assert(used.contains(suffixed(base, n)));
    }
}

// Names with different numbers are different.
proof fn lemma_suffixed_distinct(base: Seq<char>, a: nat, b: nat)
    requires
        suffixed(base, a) == suffixed(base, b),
    ensures
        a == b,
{
    let at = (base + "-"@).len() as int;
    assert(suffixed(base, a).skip(at) =~= decimal(a));
    assert(suffixed(base, b).skip(at) =~= decimal(b));
    lemma_decimal_reads_back(a);
    lemma_decimal_reads_back(b);
}

// Among so many names there is room for one more.
proof fn lemma_suffix_found(names: Seq<Seq<char>>, base: Seq<char>)
    ensures
        exists|n: nat|
            2 <= n <= names.len() + 2 && !names.contains(#[trigger] suffixed(base, n)),
{
    let tried = Seq::new(names.len() + 1, |i: int| suffixed(base, (i + 2) as nat));
    if forall|n: nat|
        2 <= n <= names.len() + 2 ==> names.contains(#[trigger] suffixed(base, n)) {
        assert(tried.no_duplicates()) by {
            assert forall|i: int, j: int|
                0 <= i < tried.len() && 0 <= j < tried.len() && i != j implies tried[i]
                != tried[j] by {
                if tried[i] == tried[j] {
                    lemma_suffixed_distinct(base, (i + 2) as nat, (j + 2) as nat);
                }
            }
        }
        assert(tried.to_set().subset_of(names.to_set())) by {
            assert forall|x: Seq<char>| tried.to_set().contains(x) implies names.to_set().contains(
                x,
            ) by {
                let i = choose|i: int| 0 <= i < tried.len() && tried[i] == x;
                assert(names.contains(suffixed(base, (i + 2) as nat)));
            }
        }
        tried.unique_seq_to_set();
        names.lemma_cardinality_of_set();
        vstd::seq_lib::seq_to_set_is_finite(names);
        vstd::set_lib::lemma_len_subset(tried.to_set(), names.to_set());
        assert(false);
    }
}

/// Derive a config name for a newly seen output, avoiding collisions.
pub fn unique_name(config: &Config, m: &Monitor) -> (r: String)
    ensures
        r@ == fresh_name(config.targets@.dom(), *m),
{
    let mut base = match &m.name.friendly {
        Some(f) => slug(f.as_str()),
        None => String::new(),
    };
    if base.as_str().is_empty() {
        base = match &m.name.edid {
            Some(e) => slug(e.as_str()),
            None => String::new(),
        };
    }
    if base.as_str().is_empty() {
        let number = decimal_text(m.key.target_id as u128);
        base = cat2("target-", number.as_str());
    }
    assert(base@ =~= base_name(*m));
    if !config.targets.contains_key(base.as_str()) {
        return base;
    }
    let n = config.targets.len();
    let ghost names = config.targets.names();
    let ghost used = config.targets@.dom();
    proof {
        lemma_suffix_found(names, base@);
        assert forall|name: Seq<char>| used.contains(name) == names.contains(name) by {}
    }
    let mut k: u128 = 2;
    while k <= n as u128 + 2
        invariant
            n == names.len(),
            2 <= k <= n + 3,
            used == config.targets@.dom(),
            forall|name: Seq<char>| used.contains(name) == #[trigger] names.contains(name),
            forall|j: nat| 2 <= j < k ==> used.contains(#[trigger] suffixed(base@, j)),
            base@ == base_name(*m),
            used.contains(base@),
        decreases n + 3 - k,
    {
        let number = decimal_text(k);
        let candidate = cat3(base.as_str(), "-", number.as_str());
        if !config.targets.contains_key(candidate.as_str()) {
            proof {
                assert(least_suffix(used, base@, k as nat));
                lemma_least_suffix(used, base@, k as nat);
            }
            return candidate;
        }
        k += 1;
    }
    proof {
        let free = choose|f: nat|
            2 <= f <= names.len() + 2 && !names.contains(#[trigger] suffixed(base@, f));
        assert(used.contains(suffixed(base@, free)));
        assert(false);
    }
    base
}

/// A generated name is never one that is in use.
pub proof fn law_a_fresh_name_is_not_in_use(names: Seq<Seq<char>>, m: Monitor)
    ensures
        !names.to_set().contains(fresh_name(names.to_set(), m)),
{
    let base = base_name(m);
    let used = names.to_set();
    if used.contains(base) {
        lemma_suffix_found(names, base);
        let free = choose|f: nat|
            2 <= f <= names.len() + 2 && !names.contains(#[trigger] suffixed(base, f));
        lemma_least_below(used, base, free);
        let n = choose|n: nat| least_suffix(used, base, n);
        assert(least_suffix(used, base, n));
    }
}

/// A generated name is what the output calls itself, where that makes a name; or else
/// its EDID id; or else its target id. Where that name is taken, a number from two on
/// goes behind it: the least with which it is not taken.
pub proof fn law_a_fresh_name_is_the_first_that_is_free(names: Seq<Seq<char>>, m: Monitor)
    ensures
        ({
            let used = names.to_set();
            let fresh = fresh_name(used, m);
            let base = if m.name.friendly is Some && slug_of(m.name.friendly->0@).len() > 0 {
                slug_of(m.name.friendly->0@)
            } else if m.name.edid is Some && slug_of(m.name.edid->0@).len() > 0 {
                slug_of(m.name.edid->0@)
            } else {
                "target-"@ + decimal(m.key.target_id as nat)
            };
            &&& !names.contains(base) ==> fresh == base
            &&& names.contains(base) ==> exists|n: nat|
                #![trigger decimal(n)]
                n >= 2 && fresh == base + "-"@ + decimal(n) && !names.contains(fresh) && forall|
                    j: nat,
                |
                    #![trigger decimal(j)]
                    2 <= j < n ==> names.contains(base + "-"@ + decimal(j))
        }),
{
    let base = base_name(m);
    let used = names.to_set();
    if names.contains(base) {
        assert(used.contains(base));
        lemma_suffix_found(names, base);
        let free = choose|f: nat|
            2 <= f <= names.len() + 2 && !names.contains(#[trigger] suffixed(base, f));
        lemma_least_below(used, base, free);
        let n = choose|n: nat| least_suffix(used, base, n);
        assert(least_suffix(used, base, n));
        assert forall|j: nat|
            #![trigger decimal(j)]
            2 <= j < n implies names.contains(base + "-"@ + decimal(j)) by {
            assert(used.contains(suffixed(base, j)));
        }
        assert(suffixed(base, n) == base + "-"@ + decimal(n));
    }
}

// Where there is a number that will do, there is a least one.
proof fn lemma_least_below(used: Set<Seq<char>>, base: Seq<char>, n: nat)
    requires
        n >= 2,
        !used.contains(suffixed(base, n)),
    ensures
        exists|k: nat| least_suffix(used, base, k),
    decreases n,
{
    if forall|j: nat| 2 <= j < n ==> used.contains(#[trigger] suffixed(base, j)) {
        assert(least_suffix(used, base, n));
    } else {
        let j = choose|j: nat| 2 <= j < n && !used.contains(#[trigger] suffixed(base, j));
        lemma_least_below(used, base, j);
    }
}

// ---------------------------------------------------------------------------
// Recording
// ---------------------------------------------------------------------------

/// The entry under which an output is registered. Power control is opt-in: a newly
/// discovered display is switched at the GPU only, until the config says
/// otherwise.
pub open spec fn entry_of(m: Monitor) -> TargetEntry {
    TargetEntry { key: m.key, edid: m.name.edid, friendly: m.name.friendly, cec: None }
}

/// What recording outputs has come to: the targets there are, the names of the
/// outputs recorded, and which of those names are new.
pub struct Recording {
    pub targets: Map<Seq<char>, TargetEntry>,
    pub members: Seq<Seq<char>>,
    pub new_names: Seq<Seq<char>>,
}

/// Recording one output more: under the name it has, or else under a new one.
pub open spec fn record_one(so_far: Recording, m: Monitor) -> Recording {
    match first_name(so_far.targets, m.key@) {
        Some(name) => Recording { members: so_far.members.push(name), ..so_far },
        None => {
            let name = fresh_name(so_far.targets.dom(), m);
            Recording {
                targets: so_far.targets.insert(name, entry_of(m)),
                members: so_far.members.push(name),
                new_names: so_far.new_names.push(name),
            }
        },
    }
}

/// Recording those of some outputs that are active.
pub open spec fn recording(targets: Map<Seq<char>, TargetEntry>, ms: Seq<Monitor>) -> Recording
    decreases ms.len(),
{
    if ms.len() == 0 {
        Recording { targets, members: Seq::empty(), new_names: Seq::empty() }
    } else {
        let so_far = recording(targets, ms.drop_last());
        if ms.last().active {
            record_one(so_far, ms.last())
        } else {
            so_far
        }
    }
}

/// Whether any output is active.
pub open spec fn any_active(ms: Seq<Monitor>) -> bool {
    exists|i: int| 0 <= i < ms.len() && (#[trigger] ms[i]).active
}

/// What was recorded.
#[derive(Debug)]
pub struct Saved {
    /// The names of the outputs that are in the profile.
    pub members: Vec<String>,
    /// Those of them that were registered just now.
    pub newly_named: Vec<String>,
}

// Whether any output is active.
fn has_active(monitors: &[Monitor]) -> (r: bool)
    ensures
        r == any_active(monitors@),
{
    for i in 0..monitors.len()
        invariant
            forall|j: int| 0 <= j < i ==> !(#[trigger] monitors@[j]).active,
    {
        if monitors[i].active {
            return true;
        }
    }
    false
}

// Copies of some strings.
fn copies(v: &Vec<String>) -> (r: Vec<String>)
    ensures
        texts(r@) == texts(v@),
{
    let mut out: Vec<String> = Vec::new();
    assert(texts(out@) =~= texts(v@).take(0));
    for i in 0..v.len()
        invariant
            texts(out@) == texts(v@).take(i as int),
    {
        let ghost before = out@;
        out.push(v[i].clone());
        assert(texts(out@) =~= texts(before).push(v@[i as int]@));
        assert(texts(v@).take(i + 1) =~= texts(v@).take(i as int).push(v@[i as int]@));
    }
    assert(texts(v@).take(v@.len() as int) =~= texts(v@));
    out
}

/// Record the active outputs as a profile. Nothing changes where the profile is
/// there already and is not to be overwritten, or where no output is active.
pub fn record(config: &mut Config, monitors: &[Monitor], name: &str, force: bool) -> (r: Result<
    Saved,
    Error,
>)
    ensures
        ({
            let taken = old(config).profiles@.dom().contains(name@) && !force;
            let done = recording(old(config).targets@, monitors@);
            match r {
                Ok(saved) => {
                    &&& !taken
                    &&& any_active(monitors@)
                    &&& texts(saved.members@) == done.members
                    &&& texts(saved.newly_named@) == done.new_names
                    &&& final(config).targets@ == done.targets
                    &&& final(config).profiles@.dom() == old(config).profiles@.dom().insert(name@)
                    &&& texts(final(config).profiles@[name@]@) == done.members
                    &&& forall|other: Seq<char>| #[trigger]
                        old(config).profiles@.dom().contains(other) && other != name@
                            ==> final(config).profiles@[other] == old(config).profiles@[other]
                    &&& final(config).switch == old(config).switch
                    &&& final(config).hotkeys == old(config).hotkeys
                },
                Err(e) => {
                    &&& *final(config) == *old(config)
                    &&& taken || !any_active(monitors@)
                    &&& taken ==> chain(e) == seq![
                        "profile \""@ + name@ + "\" already exists; pass --force to overwrite"@,
                    ]
                    &&& !taken ==> chain(e) == seq![
                        "no active displays found — nothing to save"@,
                    ]
                },
            }
        }),
{
    if config.profiles.contains_key(name) && !force {
        return Err(
            Error::Plain {
                why: cat3("profile \"", name, "\" already exists; pass --force to overwrite"),
            },
        );
    }
    if !has_active(monitors) {
        return Err(
            Error::Plain { why: "no active displays found — nothing to save".to_owned() },
        );
    }
    let ghost before = *config;
    let mut members: Vec<String> = Vec::new();
    let mut newly_named: Vec<String> = Vec::new();
    assert(texts(members@) =~= Seq::empty());
    assert(texts(newly_named@) =~= Seq::empty());
    assert(monitors@.take(0) =~= Seq::empty());
    for i in 0..monitors.len()
        invariant
            config.profiles == before.profiles,
            config.switch == before.switch,
            config.hotkeys == before.hotkeys,
            config.targets@ == recording(before.targets@, monitors@.take(i as int)).targets,
            texts(members@) == recording(before.targets@, monitors@.take(i as int)).members,
            texts(newly_named@) == recording(before.targets@, monitors@.take(i as int)).new_names,
    {
        let ghost so_far = recording(before.targets@, monitors@.take(i as int));
        assert(monitors@.take(i + 1).drop_last() =~= monitors@.take(i as int));
        if monitors[i].active {
            let m = &monitors[i];
            let known = match config.name_for(&m.key) {
                Some(existing) => Some(existing.to_owned()),
                None => None,
            };
            let _ = config.targets.len();
            proof {
                config.lemma_name_of(m.key@);
            }
            let ghost listed = members@;
            let ghost fresh = newly_named@;
            match known {
                Some(existing) => {
                    members.push(existing);
                    assert(texts(members@) =~= texts(listed).push(existing@));
                },
                None => {
                    let generated = unique_name(config, m);
                    config.targets.insert(
                        generated.clone(),
                        TargetEntry {
                            key: m.key.clone(),
                            edid: crate::display::ccd::copy_text(&m.name.edid),
                            friendly: crate::display::ccd::copy_text(&m.name.friendly),
                            cec: None,
                        },
                    );
                    newly_named.push(generated.clone());
                    assert(texts(newly_named@) =~= texts(fresh).push(generated@));
                    members.push(generated);
                    assert(texts(members@) =~= texts(listed).push(generated@));
                },
            }
        }
    }
    assert(monitors@.take(monitors@.len() as int) =~= monitors@);
    let listed = copies(&members);
    config.profiles.insert(name.to_owned(), listed);
    Ok(Saved { members, newly_named })
}

/// What is said of a profile that was saved.
pub open spec fn saved_lines(
    name: Seq<char>,
    saved: Saved,
    config: Config,
    path: Seq<char>,
) -> Seq<Seq<char>> {
    seq!["Saved profile \""@ + name + "\": "@ + join(texts(saved.members@), ", "@)] + (
    if saved.newly_named@.len() == 0 {
        Seq::empty()
    } else {
        seq![
            "Registered "@ + decimal(saved.newly_named@.len()) + " new target(s): "@ + join(
                texts(saved.newly_named@),
                ", "@,
            ),
            "Rename them in "@ + path + " if you'd like shorter names."@,
        ]
    }) + (if config.switch is None && config.profiles.names().len() >= 2 {
        seq![
            "\nTo make bare `switch` work, add to "@ + path + ":\n  \"switch\": [\""@
                + config.profiles.names()[0] + "\", \""@ + config.profiles.names()[1] + "\"]"@,
        ]
    } else {
        Seq::empty()
    })
}

/// The lines on a profile that was saved.
pub fn report(name: &str, saved: &Saved, config: &Config, path: &str) -> (r: Vec<String>)
    ensures
        texts(r@) == saved_lines(name@, *saved, *config, path@),
{
    let mut lines: Vec<String> = Vec::new();
    let list = joined(saved.members.as_slice(), ", ");
    lines.push(cat4("Saved profile \"", name, "\": ", list.as_str()));
    if saved.newly_named.len() > 0 {
        let number = decimal_text(saved.newly_named.len() as u128);
        let fresh = joined(saved.newly_named.as_slice(), ", ");
        lines.push(cat4("Registered ", number.as_str(), " new target(s): ", fresh.as_str()));
        lines.push(cat3("Rename them in ", path, " if you'd like shorter names."));
    }
    if config.switch.is_none() && config.profiles.len() >= 2 {
        let head = cat4(
            "\nTo make bare `switch` work, add to ",
            path,
            ":\n  \"switch\": [\"",
            config.profiles.name_at(0).as_str(),
        );
        lines.push(
            cat4(head.as_str(), "\", \"", config.profiles.name_at(1).as_str(), "\"]"),
        );
    }
    assert(texts(lines@) =~= saved_lines(name@, *saved, *config, path@));
    lines
}

/// Targets that are there stay as they are: recording only adds to them.
pub proof fn law_recording_keeps_targets(targets: NameMap<TargetEntry>, ms: Seq<Monitor>)
    ensures
        forall|name: Seq<char>| #[trigger]
            targets@.dom().contains(name) ==> recording(targets@, ms).targets.dom().contains(name)
                && recording(targets@, ms).targets[name] == targets@[name],
{
    assert(targets@.dom() =~= targets.names().to_set());
    lemma_recording_keeps_targets(targets@, targets.names(), ms);
}

// Recording only adds to targets, and to a list of them.
proof fn lemma_recording_keeps_targets(
    targets: Map<Seq<char>, TargetEntry>,
    names: Seq<Seq<char>>,
    ms: Seq<Monitor>,
)
    requires
        targets.dom() == names.to_set(),
    ensures
        forall|name: Seq<char>| #[trigger]
            targets.dom().contains(name) ==> recording(targets, ms).targets.dom().contains(name)
                && recording(targets, ms).targets[name] == targets[name],
        exists|all: Seq<Seq<char>>| recording(targets, ms).targets.dom() == #[trigger] all.to_set(),
    decreases ms.len(),
{
    if ms.len() == 0 {
        assert(recording(targets, ms).targets.dom() == names.to_set());
    } else {
        lemma_recording_keeps_targets(targets, names, ms.drop_last());
        let so_far = recording(targets, ms.drop_last());
        let all = choose|all: Seq<Seq<char>>| so_far.targets.dom() == #[trigger] all.to_set();
        if ms.last().active && first_name(so_far.targets, ms.last().key@) is None {
            law_a_fresh_name_is_not_in_use(all, ms.last());
            let name = fresh_name(so_far.targets.dom(), ms.last());
            let more = all.push(name);
            assert(recording(targets, ms).targets.dom() =~= more.to_set()) by {
                assert forall|x: Seq<char>| more.to_set().contains(x) <==> so_far.targets.dom().insert(
                    name,
                ).contains(x) by {
                    if more.contains(x) {
                        let i = choose|i: int| 0 <= i < more.len() && more[i] == x;
                        if i < all.len() {
                            assert(all[i] == x);
                            assert(all.to_set().contains(x));
                        }
                    }
                    if so_far.targets.dom().contains(x) {
                        assert(all.to_set().contains(x));
                        let i = choose|i: int| 0 <= i < all.len() && all[i] == x;
                        assert(more[i] == x);
                    }
                    if x == name {
                        assert(more[all.len() as int] == x);
                    }
                }
            }
        } else {
            assert(recording(targets, ms).targets.dom() == all.to_set());
        }
    }
}

// The outputs that a recording's members stand for are the active ones, in order.
proof fn lemma_members_stand_for_outputs(
    targets: Map<Seq<char>, TargetEntry>,
    names: Seq<Seq<char>>,
    ms: Seq<Monitor>,
)
    requires
        targets.dom() == names.to_set(),
    ensures
        recording(targets, ms).members.len() == active_of(ms).len(),
        forall|k: int|
            0 <= k < active_of(ms).len() ==> {
                let name = #[trigger] recording(targets, ms).members[k];
                &&& recording(targets, ms).targets.dom().contains(name)
                &&& recording(targets, ms).targets[name].key@ == active_of(ms)[k]
            },
    decreases ms.len(),
{
    if ms.len() > 0 {
        lemma_members_stand_for_outputs(targets, names, ms.drop_last());
        lemma_recording_keeps_targets(targets, names, ms.drop_last());
        let so_far = recording(targets, ms.drop_last());
        let done = recording(targets, ms);
        let m = ms.last();
        if m.active {
            let all = choose|all: Seq<Seq<char>>| so_far.targets.dom() == #[trigger] all.to_set();
            law_a_fresh_name_is_not_in_use(all, m);
            assert forall|k: int| 0 <= k < active_of(ms).len() implies {
                let name = #[trigger] done.members[k];
                &&& done.targets.dom().contains(name)
                &&& done.targets[name].key@ == active_of(ms)[k]
            } by {
                if k < so_far.members.len() {
                    assert(done.members[k] == so_far.members[k]);
                    assert(active_of(ms)[k] == active_of(ms.drop_last())[k]);
                } else {
                    match first_name(so_far.targets, m.key@) {
                        Some(name) => {
                            assert(is_first_name(so_far.targets, m.key@, name));
                        },
                        None => {},
                    }
                }
            }
        }
    }
}

/// A profile that was just saved is what is on screen: its outputs are exactly the
/// active ones.
pub proof fn law_a_saved_profile_is_on_screen(
    before: Config,
    ms: Seq<Monitor>,
    config: Config,
    members: Seq<String>,
)
    requires
        config.targets@ == recording(before.targets@, ms).targets,
        texts(members) == recording(before.targets@, ms).members,
    ensures
        same_outputs(resolved(config, members), active_of(ms)),
        forall|k: int|
            0 <= k < members.len() ==> config.targets@.dom().contains((#[trigger] members[k])@),
{
    let done = recording(before.targets@, ms);
    let active = active_of(ms);
    assert(before.targets@.dom() =~= before.targets.names().to_set());
    lemma_members_stand_for_outputs(before.targets@, before.targets.names(), ms);
    law_a_profile_is_a_set(config, members);
    assert forall|k: int| 0 <= k < members.len() implies (#[trigger] members[k])@
        == done.members[k] by {
        assert(texts(members)[k] == members[k]@);
    }
    assert(members.len() == texts(members).len());
    assert forall|key: (Seq<char>, u32)|
        resolved(config, members).to_set().contains(key) <==> active.to_set().contains(key) by {
        if resolved(config, members).contains(key) {
            let i = choose|i: int|
                0 <= i < members.len() && config.targets@[(#[trigger] members[i])@].key@ == key;
            assert(active[i] == key);
            assert(active.contains(key));
        }
        if active.contains(key) {
            let k = choose|k: int| 0 <= k < active.len() && active[k] == key;
            assert(config.targets@[members[k]@].key@ == key);
            assert(resolved(config, members).contains(key));
        }
    }
    assert(resolved(config, members).to_set() =~= active.to_set());
}

/// Recording adds exactly the targets that it names anew. Each of those stands for an
/// active output that no target stood for, has what that output reports beside its key,
/// and no power control.
pub proof fn law_new_targets_are_as_they_were_seen(
    targets: NameMap<TargetEntry>,
    ms: Seq<Monitor>,
    name: Seq<char>,
)
    ensures
        ({
            let done = recording(targets@, ms);
            &&& done.targets.dom().contains(name) <==> targets@.dom().contains(name)
                || done.new_names.contains(name)
            &&& done.new_names.contains(name) ==> {
                let entry = done.targets[name];
                &&& !targets@.dom().contains(name)
                &&& entry.cec is None
                &&& exists|i: int|
                    #![trigger ms[i]]
                    {
                        &&& 0 <= i < ms.len()
                        &&& ms[i].active
                        &&& entry.key == ms[i].key
                        &&& entry.edid == ms[i].name.edid
                        &&& entry.friendly == ms[i].name.friendly
                    }
                &&& forall|other: Seq<char>| #[trigger]
                    targets@.dom().contains(other) ==> targets@[other].key@ != entry.key@
            }
        }),
    decreases ms.len(),
{
    assert(targets@.dom() =~= targets.names().to_set());
    if ms.len() > 0 {
        let fewer = ms.drop_last();
        let m = ms.last();
        law_new_targets_are_as_they_were_seen(targets, fewer, name);
        lemma_recording_keeps_targets(targets@, targets.names(), fewer);
        let so_far = recording(targets@, fewer);
        let done = recording(targets@, ms);
        assert forall|i: int| 0 <= i < fewer.len() implies #[trigger] ms[i] == fewer[i] by {}
        assert(ms[ms.len() - 1] == m);
        if so_far.new_names.contains(name) {
            let k = choose|k: int| 0 <= k < so_far.new_names.len() && so_far.new_names[k] == name;
            assert(done.new_names[k] == name);
            let i = choose|i: int|
                #![trigger fewer[i]]
                {
                    &&& 0 <= i < fewer.len()
                    &&& fewer[i].active
                    &&& so_far.targets[name].key == fewer[i].key
                    &&& so_far.targets[name].edid == fewer[i].name.edid
                    &&& so_far.targets[name].friendly == fewer[i].name.friendly
                };
            assert(ms[i] == fewer[i]);
        }
        if m.active {
            let all = choose|all: Seq<Seq<char>>| so_far.targets.dom() == #[trigger] all.to_set();
            law_a_fresh_name_is_not_in_use(all, m);
            if first_name(so_far.targets, m.key@) is None {
                let fresh = fresh_name(so_far.targets.dom(), m);
                lemma_no_first_name(so_far.targets, all, m.key@);
                assert(!so_far.targets.dom().contains(fresh));
                if done.new_names.contains(name) && !so_far.new_names.contains(name) {
                    let k = choose|k: int|
                        0 <= k < done.new_names.len() && done.new_names[k] == name;
                    if k < so_far.new_names.len() {
                        assert(so_far.new_names[k] == name);
                    }
                    assert(name == fresh);
                }
                if name == fresh {
                    assert(done.new_names[so_far.new_names.len() as int] == name);
                    assert forall|other: Seq<char>| #[trigger]
                        targets@.dom().contains(other) implies targets@[other].key@ != m.key@ by {
                        assert(so_far.targets.dom().contains(other));
                        assert(so_far.targets[other] == targets@[other]);
                    }
                }
            }
        }
    }
}

// Of some names that meet a condition one comes before all others that do.
proof fn lemma_least_name(names: Seq<Seq<char>>, meets: spec_fn(Seq<char>) -> bool) -> (b: Seq<
    char,
>)
    requires
        exists|i: int| 0 <= i < names.len() && meets(#[trigger] names[i]),
    ensures
        names.contains(b),
        meets(b),
        forall|i: int|
            0 <= i < names.len() && meets(#[trigger] names[i]) ==> names[i] == b || before(
                b,
                names[i],
            ),
    decreases names.len(),
{
    let fewer = names.drop_last();
    let last = names.last();
    assert(names[names.len() - 1] == last);
    if exists|i: int| 0 <= i < fewer.len() && meets(#[trigger] fewer[i]) {
        let b = lemma_least_name(fewer, meets);
        let k = choose|k: int| 0 <= k < fewer.len() && fewer[k] == b;
        assert(names[k] == b);
        lemma_before_total(b, last);
        let least = if meets(last) && before(last, b) {
            last
        } else {
            b
        };
        assert forall|i: int| 0 <= i < names.len() && meets(#[trigger] names[i]) implies names[i]
            == least || before(least, names[i]) by {
            if i < fewer.len() {
                assert(fewer[i] == names[i]);
                if least != b && names[i] != b {
                    lemma_before_transitive(last, b, names[i]);
                }
            }
        }
        least
    } else {
        assert forall|i: int| 0 <= i < names.len() && meets(#[trigger] names[i]) implies names[i]
            == last by {
            if i < fewer.len() {
                assert(fewer[i] == names[i]);
            }
        }
        last
    }
}

// Where no name is the first that stands for an output, none stands for it.
proof fn lemma_no_first_name(
    targets: Map<Seq<char>, TargetEntry>,
    names: Seq<Seq<char>>,
    key: (Seq<char>, u32),
)
    requires
        targets.dom() == names.to_set(),
        first_name(targets, key) is None,
    ensures
        forall|name: Seq<char>| #[trigger]
            targets.dom().contains(name) ==> targets[name].key@ != key,
{
    let meets = |name: Seq<char>| targets[name].key@ == key;
    if exists|name: Seq<char>| #[trigger]
        targets.dom().contains(name) && targets[name].key@ == key {
        let name = choose|name: Seq<char>| #[trigger]
            targets.dom().contains(name) && targets[name].key@ == key;
        assert(names.to_set().contains(name));
        let i = choose|i: int| 0 <= i < names.len() && names[i] == name;
        assert(meets(names[i]));
        let b = lemma_least_name(names, meets);
        assert(names.to_set().contains(b));
        assert forall|other: Seq<char>| #[trigger]
            targets.dom().contains(other) && targets[other].key@ == key implies other == b
            || before(b, other) by {
            assert(names.to_set().contains(other));
            let k = choose|k: int| 0 <= k < names.len() && names[k] == other;
            assert(meets(names[k]));
        }
        assert(is_first_name(targets, key, b));
    }
}

/// What is said of a saved profile lists its members, and the new targets where there
/// are any. A pair of profiles to switch between is suggested exactly where there are
/// two profiles and the config names no pair.
pub proof fn law_a_saved_profile_is_reported(
    name: Seq<char>,
    saved: Saved,
    config: Config,
    path: Seq<char>,
)
    ensures
        ({
            let lines = saved_lines(name, saved, config, path);
            let news = if saved.newly_named@.len() > 0 {
                2int
            } else {
                0
            };
            let hint = config.switch is None && config.profiles.names().len() >= 2;
            &&& lines.len() == 1 + news + if hint {
                1int
            } else {
                0
            }
            &&& lines[0] == "Saved profile \""@ + name + "\": "@ + join(texts(saved.members@), ", "@)
            &&& news > 0 ==> lines[1] == "Registered "@ + decimal(saved.newly_named@.len())
                + " new target(s): "@ + join(texts(saved.newly_named@), ", "@)
            &&& news > 0 ==> lines[2] == "Rename them in "@ + path
                + " if you'd like shorter names."@
            &&& hint ==> lines.last() == "\nTo make bare `switch` work, add to "@ + path
                + ":\n  \"switch\": [\""@ + config.profiles.names()[0] + "\", \""@
                + config.profiles.names()[1] + "\"]"@
        }),
{
}

/// An output that has a name goes by it: a profile lists it under a target that was
/// there, the first in name order where there are several.
pub proof fn law_a_named_output_goes_by_its_name(
    targets: NameMap<TargetEntry>,
    ms: Seq<Monitor>,
    k: int,
    other: Seq<char>,
)
    requires
        0 <= k < active_of(ms).len(),
        targets@.dom().contains(other),
        targets@[other].key@ == active_of(ms)[k],
    ensures
        ({
            let name = recording(targets@, ms).members[k];
            &&& targets@.dom().contains(name)
            &&& targets@[name].key@ == active_of(ms)[k]
            &&& name == other || before(name, other)
        }),
    decreases ms.len(),
{
    assert(targets@.dom() =~= targets.names().to_set());
    let fewer = ms.drop_last();
    lemma_members_stand_for_outputs(targets@, targets.names(), fewer);
    lemma_members_stand_for_outputs(targets@, targets.names(), ms);
    lemma_recording_keeps_targets(targets@, targets.names(), fewer);
    let so_far = recording(targets@, fewer);
    let done = recording(targets@, ms);
    if k < active_of(fewer).len() {
        law_a_named_output_goes_by_its_name(targets, fewer, k, other);
        assert(done.members[k] == so_far.members[k]);
    } else {
        let key = ms.last().key@;
        let all = choose|all: Seq<Seq<char>>| so_far.targets.dom() == #[trigger] all.to_set();
        assert(so_far.targets.dom().contains(other) && so_far.targets[other] == targets@[other]);
        if first_name(so_far.targets, key) is None {
            lemma_no_first_name(so_far.targets, all, key);
        }
        let name = first_name(so_far.targets, key)->0;
        assert(is_first_name(so_far.targets, key, name));
        law_new_targets_are_as_they_were_seen(targets, fewer, name);
        assert(done.members[k] == name);
    }
}

/// A profile is saved unless its name is taken and not to be overwritten, or nothing is
/// active; then nothing changes. The new profile holds the recorded names, and no other
/// profile, nor the hotkeys, nor the pair to switch between change with it.
pub proof fn law_only_the_named_profile_is_saved(
    config: &mut Config,
    monitors: &[Monitor],
    name: &str,
    force: bool,
    r: Result<Saved, Error>,
)
    requires
        call_ensures(record, (config, monitors, name, force), r),
    ensures
        r is Ok <==> (force || !old(config).profiles@.dom().contains(name@)) && exists|i: int|
            0 <= i < monitors@.len() && (#[trigger] monitors@[i]).active,
        r is Err ==> *final(config) == *old(config),
        r matches Ok(saved) ==> final(config).profiles@.dom().contains(name@) && texts(
            final(config).profiles@[name@]@,
        ) == texts(saved.members@),
        r is Ok ==> final(config).switch == old(config).switch && final(config).hotkeys == old(config).hotkeys,
        forall|other: Seq<char>| #[trigger]
            old(config).profiles@.dom().contains(other) && other != name@ ==> final(config).profiles@.dom().contains(other) && final(config).profiles@[other] == old(config).profiles@[other],
        old(config).profiles@.dom().contains(name@) && !force ==> (r matches Err(e) && chain(e)
            == seq!["profile \""@ + name@ + "\" already exists; pass --force to overwrite"@]),
{
}

/// The laws on names and reports are about what the functions here return.
pub proof fn law_names_are_made_as_stated(
    s: &str,
    config: &Config,
    m: &Monitor,
    saved: &Saved,
    path: &str,
)
    ensures
        forall|r: String| call_ensures(slug, (s,), r) ==> r@ == slug_of(s@),
        forall|r: String|
            call_ensures(unique_name, (config, m), r) ==> r@ == fresh_name(
                config.targets@.dom(),
                *m,
            ),
        forall|r: Vec<String>|
            call_ensures(report, (s, saved, config, path), r) ==> texts(r@) == saved_lines(
                s@,
                *saved,
                *config,
                path@,
            ),
{
}

} // verus!
