use vstd::prelude::*;

use crate::dates::CatalogError;
use crate::db::{BuildMode, FinishedNightly};
use crate::text::{chars_of, string_of};

verus! {

/// What a manifest line holds before the nightly's date.
pub open spec fn manifest_prefix() -> Seq<char> {
    "static.rust-lang.org/dist/"@
}

/// What a manifest line of the nightly channel holds after the date.
pub open spec fn manifest_suffix() -> Seq<char> {
    "/channel-rust-nightly.toml"@
}

/// `l` without one trailing carriage return.
pub open spec fn strip_cr(l: Seq<char>) -> Seq<char> {
    if l.len() > 0 && l.last() == '\r' {
        l.drop_last()
    } else {
        l
    }
}

/// The lines of `s`, given that `cur` was already read of the current line:
/// lines end at `\n` (or `\r\n`); the last line needs no line ending and is
/// left out when empty.
pub open spec fn lines_from(s: Seq<char>, cur: Seq<char>) -> Seq<Seq<char>>
    decreases s.len(),
{
    if s.len() == 0 {
        if cur.len() == 0 {
            seq![]
        } else {
            seq![cur]
        }
    } else if s[0] == '\n' {
        seq![strip_cr(cur)] + lines_from(s.drop_first(), seq![])
    } else {
        lines_from(s.drop_first(), cur.push(s[0]))
    }
}

/// The lines of `s`, as `str::lines` yields them.
pub open spec fn lines(s: Seq<char>) -> Seq<Seq<char>> {
    lines_from(s, seq![])
}

/// Whether line `l` names the manifest of a nightly.
pub open spec fn is_nightly_line(l: Seq<char>) -> bool {
    &&& l.len() >= manifest_prefix().len() + manifest_suffix().len()
    &&& l.take(manifest_prefix().len() as int) == manifest_prefix()
    &&& l.skip(l.len() - manifest_suffix().len()) == manifest_suffix()
}

/// The nightly that a nightly manifest line names: what stands between
/// prefix and suffix.
pub open spec fn nightly_of_line(l: Seq<char>) -> Seq<char> {
    l.subrange(manifest_prefix().len() as int, l.len() - manifest_suffix().len())
}

/// The nightlies that the lines `ls` name, in order.
pub open spec fn nightlies_in(ls: Seq<Seq<char>>) -> Seq<Seq<char>>
    decreases ls.len(),
{
    if ls.len() == 0 {
        seq![]
    } else {
        let head = if is_nightly_line(ls[0]) {
            seq![nightly_of_line(ls[0])]
        } else {
            seq![]
        };
        head + nightlies_in(ls.drop_first())
    }
}

/// The views of a sequence of strings.
pub open spec fn views(v: Seq<String>) -> Seq<Seq<char>> {
    v.map_values(|s: String| s@)
}

/// Whether `a[start..start + b.len()]` equals `b`.
fn matches_at(a: &Vec<char>, start: usize, b: &Vec<char>) -> (r: bool)
    requires
        start + b.len() <= a.len(),
    ensures
        r == (a@.subrange(start as int, start + b.len()) == b@),
{
    let mut i: usize = 0;
    while i < b.len()
        invariant
            i <= b.len(),
            start + b.len() <= a.len(),
            forall|j: int| 0 <= j < i ==> a@[start + j] == b@[j],
        decreases b.len() - i,
    {
        if a[start + i] != b[i] {
            assert(a@.subrange(start as int, start + b.len())[i as int] != b@[i as int]);
            return false;
        }
        i += 1;
    }
    assert(a@.subrange(start as int, start + b.len()) =~= b@);
    true
}

/// The nightly that one manifest line names, if it is a nightly line.
fn nightly_in_line(line: &Vec<char>, prefix: &Vec<char>, suffix: &Vec<char>) -> (r: Option<String>)
    requires
        prefix@ == manifest_prefix(),
        suffix@ == manifest_suffix(),
    ensures
        r is Some <==> is_nightly_line(line@),
        r is Some ==> r->0@ == nightly_of_line(line@),
{
    if line.len() < prefix.len() || line.len() - prefix.len() < suffix.len() {
        return None;
    }
    let tail = line.len() - suffix.len();
    assert(line@.take(prefix.len() as int) =~= line@.subrange(0, prefix.len() as int));
    assert(line@.skip(tail as int) =~= line@.subrange(tail as int, tail + suffix.len()));
    if !matches_at(line, 0, prefix) || !matches_at(line, tail, suffix) {
        return None;
    }
    let mut date: Vec<char> = Vec::new();
    let mut i: usize = prefix.len();
    while i < tail
        invariant
            prefix.len() <= i <= tail <= line.len(),
            date@ == line@.subrange(prefix.len() as int, i as int),
        decreases tail - i,
    {
        date.push(line[i]);
        i += 1;
        assert(date@ =~= line@.subrange(prefix.len() as int, i as int));
    }
    Some(string_of(&date))
}

proof fn lemma_nightlies_in_cons(l: Seq<char>, rest: Seq<Seq<char>>)
    ensures
        nightlies_in(seq![l] + rest) == (if is_nightly_line(l) {
            seq![nightly_of_line(l)]
        } else {
            seq![]
        }) + nightlies_in(rest),
{
    let s = seq![l] + rest;
    assert(s.drop_first() =~= rest);
    assert(s[0] == l);
}

/// Every nightly that a manifest listing names, in the order of its lines.
pub fn nightlies_from_manifest(manifest: &str) -> (r: Vec<String>)
    ensures
        views(r@) == nightlies_in(lines(manifest@)),
{
    let cs = chars_of(manifest);
    let prefix = chars_of("static.rust-lang.org/dist/");
    let suffix = chars_of("/channel-rust-nightly.toml");
    let mut out: Vec<String> = Vec::new();
    let mut cur: Vec<char> = Vec::new();
    let mut i: usize = 0;
    assert(cs@.skip(0) =~= cs@);
    assert(views(out@) + nightlies_in(lines(cs@)) =~= nightlies_in(lines(cs@)));
    while i < cs.len()
        invariant
            i <= cs.len(),
            prefix@ == manifest_prefix(),
            suffix@ == manifest_suffix(),
            views(out@) + nightlies_in(lines_from(cs@.skip(i as int), cur@)) == nightlies_in(
                lines(cs@),
            ),
        decreases cs.len() - i,
    {
        let c = cs[i];
        let ghost rest = cs@.skip(i as int);
        let ghost old_cur = cur@;
        assert(rest.drop_first() =~= cs@.skip(i + 1));
        assert(rest[0] == c);
        if c == '\n' {
            let mut line = cur;
            if line.len() > 0 && line[line.len() - 1] == '\r' {
                line.pop();
            }
            assert(line@ == strip_cr(cur@)) by {
                if cur@.len() > 0 && cur@.last() == '\r' {
                    assert(line@ =~= cur@.drop_last());
                }
            }
            let found = nightly_in_line(&line, &prefix, &suffix);
            proof {
                lemma_nightlies_in_cons(line@, lines_from(cs@.skip(i + 1), seq![]));
            }
            let ghost before = views(out@);
            match found {
                Some(n) => {
                    out.push(n);
                    assert(views(out@) =~= before + seq![nightly_of_line(line@)]);
                },
                None => {},
            }
            cur = Vec::new();
            assert(views(out@) + nightlies_in(lines_from(cs@.skip(i + 1), cur@)) =~= views(out@)
                + nightlies_in(lines_from(cs@.skip(i + 1), seq![])));
            assert(views(out@) + nightlies_in(lines_from(cs@.skip(i + 1), seq![])) =~= before
                + nightlies_in(lines_from(rest, old_cur)));
        } else {
            cur.push(c);
        }
        i += 1;
    }
    assert(cs@.skip(i as int) =~= seq![]);
    if cur.len() > 0 {
        let found = nightly_in_line(&cur, &prefix, &suffix);
        proof {
            lemma_nightlies_in_cons(cur@, seq![]);
            assert(seq![cur@] + seq![] =~= seq![cur@]);
        }
        let ghost before = views(out@);
        match found {
            Some(n) => {
                out.push(n);
                assert(views(out@) =~= before + seq![nightly_of_line(cur@)]);
            },
            None => {},
        }
        assert(views(out@) =~= nightlies_in(lines(cs@)));
    } else {
        assert(views(out@) =~= nightlies_in(lines(cs@)));
    }
    out
}

/// Whether `fin` holds the pair (`nightly`, `mode`).
pub open spec fn is_finished(fin: Seq<FinishedNightly>, nightly: Seq<char>, mode: BuildMode) -> bool {
    exists|j: int| 0 <= j < fin.len() && fin[j].nightly@ == nightly && fin[j].mode == mode
}

/// The `k`-th pair in selection order over `all`: each nightly in turn,
/// `Core` before `MiriStd`.
pub open spec fn candidate(all: Seq<Seq<char>>, k: int) -> (Seq<char>, BuildMode) {
    (all[k / 2], if k % 2 == 0 { BuildMode::Core } else { BuildMode::MiriStd })
}

/// All nightlies that exist, newest first.
pub struct Nightlies {
    all: Vec<String>,
}

impl View for Nightlies {
    type V = Seq<Seq<char>>;

    closed spec fn view(&self) -> Seq<Seq<char>> {
        views(self.all@)
    }
}

impl Nightlies {
    /// The nightlies `all`, taken as newest first.
    pub fn from_newest_first(all: Vec<String>) -> (r: Nightlies)
        ensures
            r@ == views(all@),
    {
        Nightlies { all }
    }

    /// The nightlies, newest first.
    pub fn all(&self) -> (r: &Vec<String>)
        ensures
            views(r@) == self@,
    {
        &self.all
    }

    /// The first pair in selection order (newest nightly first, `Core`
    /// before `MiriStd`) that `already_finished` does not hold; `None` when
    /// every pair is finished.
    pub fn select_latest_to_build(&self, already_finished: &[FinishedNightly]) -> (r: Option<
        (String, BuildMode),
    >)
        ensures
            r is None <==> forall|k: int|
                0 <= k < 2 * self@.len() ==> is_finished(
                    already_finished@,
                    #[trigger] candidate(self@, k).0,
                    candidate(self@, k).1,
                ),
            r matches Some(p) ==> exists|k: int|
                0 <= k < 2 * self@.len() && candidate(self@, k) == (p.0@, p.1) && !is_finished(
                    already_finished@,
                    p.0@,
                    p.1,
                ) && forall|k2: int|
                    0 <= k2 < k ==> is_finished(
                        already_finished@,
                        #[trigger] candidate(self@, k2).0,
                        candidate(self@, k2).1,
                    ),
    {
        let mut i: usize = 0;
        while i < self.all.len()
            invariant
                i <= self.all.len(),
                forall|k: int|
                    0 <= k < 2 * i ==> is_finished(
                        already_finished@,
                        #[trigger] candidate(self@, k).0,
                        candidate(self@, k).1,
                    ),
            decreases self.all.len() - i,
        {
            let nightly = &self.all[i];
            proof {
                assert(self@[i as int] == nightly@);
                assert(candidate(self@, 2 * i) == (nightly@, BuildMode::Core));
                assert(candidate(self@, 2 * i + 1) == (nightly@, BuildMode::MiriStd));
            }
            if !finished_contains(already_finished, nightly, BuildMode::Core) {
                assert(!is_finished(
                    already_finished@,
                    candidate(self@, 2 * i).0,
                    candidate(self@, 2 * i).1,
                ));
                return Some((nightly.clone(), BuildMode::Core));
            }
            if !finished_contains(already_finished, nightly, BuildMode::MiriStd) {
                assert(!is_finished(
                    already_finished@,
                    candidate(self@, 2 * i + 1).0,
                    candidate(self@, 2 * i + 1).1,
                ));
                assert(2 * i + 1 < 2 * self@.len());
                return Some((nightly.clone(), BuildMode::MiriStd));
            }
            proof {
                assert forall|k: int| 0 <= k < 2 * (i + 1) implies is_finished(
                    already_finished@,
                    #[trigger] candidate(self@, k).0,
                    candidate(self@, k).1,
                ) by {
                    if k >= 2 * i {
                        assert(k == 2 * i || k == 2 * i + 1);
                    }
                }
            }
            i += 1;
        }
        None
    }
}

/// Whether `fin` holds the pair (`nightly`, `mode`).
fn finished_contains(fin: &[FinishedNightly], nightly: &String, mode: BuildMode) -> (r: bool)
    ensures
        r == is_finished(fin@, nightly@, mode),
{
    let mut j: usize = 0;
    while j < fin.len()
        invariant
            j <= fin.len(),
            forall|j2: int| 0 <= j2 < j ==> !(fin@[j2].nightly@ == nightly@ && fin@[j2].mode == mode),
        decreases fin.len() - j,
    {
        if fin[j].nightly == *nightly && fin[j].mode == mode {
            return true;
        }
        j += 1;
    }
    false
}

/// Nightlies older than this date are never built.
pub const EARLIEST_CUTOFF_DATE: &'static str = "2023-01-01";

/// Whether `a` comes strictly before `b`, comparing characters by code point
/// from the first on (the order of `str`).
pub open spec fn text_lt(a: Seq<char>, b: Seq<char>) -> bool
    decreases a.len(),
{
    if a.len() == 0 {
        b.len() > 0
    } else if b.len() == 0 {
        false
    } else if a[0] != b[0] {
        (a[0] as u32) < (b[0] as u32)
    } else {
        text_lt(a.drop_first(), b.drop_first())
    }
}

/// Whether `n` is not older than the cutoff date: it is the cutoff date or
/// comes after it.
pub open spec fn after_cutoff(n: Seq<char>) -> bool {
    !text_lt(n, "2023-01-01"@)
}

/// No text comes strictly before itself.
pub proof fn lemma_text_lt_irreflexive(a: Seq<char>)
    ensures
        !text_lt(a, a),
    decreases a.len(),
{
    if a.len() > 0 {
        lemma_text_lt_irreflexive(a.drop_first());
    }
}

/// The cutoff date itself is kept: only older nightlies are dropped.
pub proof fn lemma_cutoff_date_kept()
    ensures
        after_cutoff("2023-01-01"@),
{
    lemma_text_lt_irreflexive("2023-01-01"@);
}

/// No element of `s` comes before an earlier one.
pub open spec fn is_ascending(s: Seq<Seq<char>>) -> bool {
    forall|i: int, j: int| 0 <= i < j < s.len() ==> !text_lt(#[trigger] s[j], #[trigger] s[i])
}

/// Relies on `slice::sort` with the `Ord` of `String`, which compares the
/// UTF-8 bytes lexicographically, and so the characters by code point: the
/// same strings, in ascending order.
#[verifier::external_body]
fn sort_strings(v: &mut Vec<String>)
    ensures
        views(final(v)@).to_multiset() == views(old(v)@).to_multiset(),
        is_ascending(views(final(v)@)),
{
    v.sort();
}

/// Whether `a` comes strictly before `b`.
fn chars_lt(a: &Vec<char>, b: &Vec<char>) -> (r: bool)
    ensures
        r == text_lt(a@, b@),
{
    let mut i: usize = 0;
    assert(a@.skip(0) =~= a@ && b@.skip(0) =~= b@);
    while i < a.len() && i < b.len()
        invariant
            i <= a.len(),
            i <= b.len(),
            a@.subrange(0, i as int) == b@.subrange(0, i as int),
            text_lt(a@, b@) == text_lt(a@.skip(i as int), b@.skip(i as int)),
        decreases a.len() - i,
    {
        let ghost sa = a@.skip(i as int);
        let ghost sb = b@.skip(i as int);
        assert(sa[0] == a@[i as int] && sb[0] == b@[i as int]);
        if a[i] != b[i] {
            return (a[i] as u32) < (b[i] as u32);
        }
        assert(sa.drop_first() =~= a@.skip(i + 1));
        assert(sb.drop_first() =~= b@.skip(i + 1));
        assert(a@.subrange(0, i + 1) =~= a@.subrange(0, i as int).push(a@[i as int]));
        assert(b@.subrange(0, i + 1) =~= b@.subrange(0, i as int).push(b@[i as int]));
        i += 1;
    }
    assert(a@.skip(i as int).len() == a.len() - i);
    i < b.len()
}

/// The nightlies of a manifest listing that are not older than the cutoff
/// date, ascending; an error when there is none.
pub fn known_nightlies(manifest: &str) -> (r: Result<Vec<String>, CatalogError>)
    ensures
        ({
            let wanted = nightlies_in(lines(manifest@)).filter(|n: Seq<char>| after_cutoff(n));
            match r {
                Ok(v) => wanted.len() > 0 && views(v@).to_multiset() == wanted.to_multiset()
                    && is_ascending(views(v@)),
                Err(e) => wanted.len() == 0 && e == CatalogError::NoNightlies,
            }
        }),
{
    let listed = nightlies_from_manifest(manifest);
    let cutoff = chars_of(EARLIEST_CUTOFF_DATE);
    let mut all: Vec<String> = Vec::new();
    let mut i: usize = 0;
    assert(views(listed@).take(0).filter(|n: Seq<char>| after_cutoff(n)) =~= seq![]);
    assert(views(all@) =~= seq![]);
    while i < listed.len()
        invariant
            i <= listed.len(),
            cutoff@ == "2023-01-01"@,
            views(all@) == views(listed@).take(i as int).filter(|n: Seq<char>| after_cutoff(n)),
        decreases listed.len() - i,
    {
        let candidate = chars_of(listed[i].as_str());
        let ghost before = views(all@);
        proof {
            let t = views(listed@).take(i as int);
            assert(views(listed@).take(i + 1) =~= t.push(listed@[i as int]@));
            t.lemma_filter_push(listed@[i as int]@, |n: Seq<char>| after_cutoff(n));
        }
        assert(candidate@ == views(listed@)[i as int]);
        if !chars_lt(&candidate, &cutoff) {
            assert(after_cutoff(candidate@));
            all.push(listed[i].clone());
            assert(views(all@) =~= before.push(listed@[i as int]@));
        } else {
            assert(!after_cutoff(candidate@));
            assert(views(all@) =~= before);
        }
        i += 1;
    }
    assert(views(listed@).take(i as int) =~= views(listed@));
    if all.len() == 0 {
        return Err(CatalogError::NoNightlies);
    }
    sort_strings(&mut all);
    proof {
        let w = nightlies_in(lines(manifest@)).filter(|n: Seq<char>| after_cutoff(n));
        assert(views(all@).to_multiset().len() == w.to_multiset().len());
        views(all@).to_multiset_ensures();
        w.to_multiset_ensures();
    }
    Ok(all)
}

/// Nightlies confirmed to exist by a direct probe, kept for the life of the
/// process so that none is probed twice.
pub struct NightlyCache {
    exists: Vec<String>,
}

impl View for NightlyCache {
    type V = Set<Seq<char>>;

    closed spec fn view(&self) -> Set<Seq<char>> {
        views(self.exists@).to_set()
    }
}

impl Default for NightlyCache {
    fn default() -> (r: NightlyCache)
        ensures
            r@ == Set::<Seq<char>>::empty(),
    {
        let r = NightlyCache { exists: Vec::new() };
        assert(views(r.exists@) =~= seq![]);
        assert(r@ =~= Set::<Seq<char>>::empty());
        r
    }
}

impl NightlyCache {
    /// Whether `nightly` was confirmed to exist.
    pub fn contains(&self, nightly: &str) -> (r: bool)
        ensures
            r == self@.contains(nightly@),
    {
        let wanted = nightly.to_owned();
        let mut i: usize = 0;
        while i < self.exists.len()
            invariant
                i <= self.exists.len(),
                wanted@ == nightly@,
                forall|j: int| 0 <= j < i ==> self.exists@[j]@ != nightly@,
            decreases self.exists.len() - i,
        {
            if self.exists[i] == wanted {
                assert(views(self.exists@)[i as int] == nightly@);
                return true;
            }
            i += 1;
        }
        assert(!views(self.exists@).contains(nightly@));
        false
    }

    /// Takes in the HTTP status that a probe for `nightly`'s channel manifest
    /// answered with: the nightly exists exactly when it is 200 (OK), and is
    /// then remembered.
    pub fn record_probe(&mut self, nightly: &str, status: u16) -> (found: bool)
        ensures
            found == (status == 200),
            final(self)@ == (if found {
                old(self)@.insert(nightly@)
            } else {
                old(self)@
            }),
    {
        if status == 200 {
            let ghost before = views(self.exists@);
            self.exists.push(nightly.to_owned());
            assert(views(self.exists@) =~= before.push(nightly@));
            assert forall|x: Seq<char>| final(self)@.contains(x) == old(self)@.insert(nightly@).contains(x) by {
                if views(self.exists@).contains(x) {
                    let j = choose|j: int| 0 <= j < views(self.exists@).len() && views(self.exists@)[j] == x;
                    if j < before.len() {
                        assert(before[j] == x);
                        assert(before.contains(x));
                    }
                }
                if before.contains(x) {
                    let j = choose|j: int| 0 <= j < before.len() && before[j] == x;
                    assert(views(self.exists@)[j] == x);
                }
                if x == nightly@ {
                    assert(views(self.exists@)[before.len() as int] == x);
                }
            }
            assert(final(self)@ =~= old(self)@.insert(nightly@));
            true
        } else {
            false
        }
    }
}

impl Nightlies {
    /// The nightlies newest first, from those a manifest listing names
    /// (ascending) and those found by probing after them (ascending).
    pub fn assemble(known: Vec<String>, probed: Vec<String>) -> (r: Nightlies)
        ensures
            r@ == (views(known@) + views(probed@)).reverse(),
    {
        let ghost asc = views(known@) + views(probed@);
        let mut all: Vec<String> = Vec::new();
        let mut i: usize = probed.len();
        while i > 0
            invariant
                i <= probed.len(),
                views(all@) == views(probed@).skip(i as int).reverse(),
            decreases i,
        {
            i -= 1;
            let ghost before = views(all@);
            all.push(probed[i].clone());
            assert(views(all@) =~= before.push(probed@[i as int]@));
            assert(views(probed@).skip(i as int) =~= seq![probed@[i as int]@] + views(probed@).skip(i + 1));
            assert(views(all@) =~= views(probed@).skip(i as int).reverse());
        }
        let mut k: usize = known.len();
        assert(views(probed@).skip(0) =~= views(probed@));
        while k > 0
            invariant
                k <= known.len(),
                views(all@) == views(probed@).reverse() + views(known@).skip(k as int).reverse(),
            decreases k,
        {
            k -= 1;
            let ghost before = views(all@);
            all.push(known[k].clone());
            assert(views(all@) =~= before.push(known@[k as int]@));
            assert(views(known@).skip(k as int) =~= seq![known@[k as int]@] + views(known@).skip(k + 1));
            assert(views(all@) =~= views(probed@).reverse() + views(known@).skip(k as int).reverse());
        }
        assert(views(known@).skip(0) =~= views(known@));
        assert(views(all@) =~= asc.reverse());
        Nightlies { all }
    }
}

} // verus!
