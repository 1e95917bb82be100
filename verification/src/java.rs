//! Runtime toolchain records and version arithmetic: parsing version
//! strings into numeric components, the descending discovery order,
//! and major-version extraction for both legacy and modern numbering.
use vstd::prelude::*;
use vstd::seq_lib::*;
use vstd::multiset::Multiset;
use core::cmp::Ordering;
use crate::strutil::{all_digits, chars_of, digits_val, is_digit, parses_as_u32, parse_u32,
    spec_split, split_on, u32_val};

verus! {

/// A discovered runtime: its self-reported version string and the
/// executable it was probed from.
#[derive(Debug, PartialEq, Eq)]
pub struct JavaInstallation {
    pub version: String,
    pub path: String,
}

impl Clone for JavaInstallation {
    /// An exact copy.
    fn clone(&self) -> (r: Self)
        ensures
            r == *self,
    {
        JavaInstallation { version: self.version.clone(), path: self.path.clone() }
    }
}

/// The separators a version string is split on.
pub open spec fn version_seps() -> Seq<char> {
    seq!['.', '_']
}

/// The numeric components of a version string: split on `.` and `_`,
/// pieces that do not parse as 32-bit numbers dropped.
pub open spec fn spec_components(s: Seq<char>) -> Seq<u32> {
    spec_split(s, version_seps()).filter_map(
        |p: Seq<char>|
            if parses_as_u32(p) {
                Some(u32_val(p) as u32)
            } else {
                None
            },
    )
}

/// Lexicographic order on component sequences; a strict prefix
/// compares as smaller.
pub open spec fn spec_lex_cmp(a: Seq<u32>, b: Seq<u32>) -> Ordering
    decreases a.len(),
{
    if a.len() == 0 && b.len() == 0 {
        Ordering::Equal
    } else if a.len() == 0 {
        Ordering::Less
    } else if b.len() == 0 {
        Ordering::Greater
    } else if a[0] < b[0] {
        Ordering::Less
    } else if a[0] > b[0] {
        Ordering::Greater
    } else {
        spec_lex_cmp(a.drop_first(), b.drop_first())
    }
}

/// Every component sequence compares equal to itself.
pub proof fn lemma_lex_cmp_refl(a: Seq<u32>)
    ensures
        spec_lex_cmp(a, a) is Equal,
    decreases a.len(),
{
    if a.len() > 0 {
        lemma_lex_cmp_refl(a.drop_first());
    }
}

/// The order is antisymmetric: swapping the operands flips it.
pub proof fn lemma_lex_cmp_flip(a: Seq<u32>, b: Seq<u32>)
    ensures
        spec_lex_cmp(a, b) is Less <==> spec_lex_cmp(b, a) is Greater,
        spec_lex_cmp(a, b) is Equal <==> spec_lex_cmp(b, a) is Equal,
    decreases a.len(),
{
    if a.len() > 0 && b.len() > 0 && a[0] == b[0] {
        lemma_lex_cmp_flip(a.drop_first(), b.drop_first());
    }
}

/// The order is transitive, strictly so when either step is strict.
pub proof fn lemma_lex_cmp_trans(x: Seq<u32>, y: Seq<u32>, z: Seq<u32>)
    requires
        !(spec_lex_cmp(x, y) is Greater),
        !(spec_lex_cmp(y, z) is Greater),
    ensures
        !(spec_lex_cmp(x, z) is Greater),
        spec_lex_cmp(x, y) is Less || spec_lex_cmp(y, z) is Less ==> spec_lex_cmp(x, z) is Less,
    decreases x.len() + y.len() + z.len(),
{
    if x.len() > 0 && y.len() > 0 && z.len() > 0 {
        if x[0] == y[0] && y[0] == z[0] {
            lemma_lex_cmp_trans(x.drop_first(), y.drop_first(), z.drop_first());
        }
    }
}

/// Compares two component sequences lexicographically.
pub fn cmp_components(a: &Vec<u32>, b: &Vec<u32>) -> (r: Ordering)
    ensures
        r == spec_lex_cmp(a@, b@),
{
    let mut i: usize = 0;
    proof {
        assert(a@.skip(0) =~= a@);
        assert(b@.skip(0) =~= b@);
    }
    while i < a.len() && i < b.len()
        invariant
            i <= a@.len(),
            i <= b@.len(),
            spec_lex_cmp(a@, b@) == spec_lex_cmp(a@.skip(i as int), b@.skip(i as int)),
        decreases a@.len() - i,
    {
        proof {
            assert(a@.skip(i as int).drop_first() =~= a@.skip(i + 1));
            assert(b@.skip(i as int).drop_first() =~= b@.skip(i + 1));
        }
        if a[i] < b[i] {
            return Ordering::Less;
        }
        if a[i] > b[i] {
            return Ordering::Greater;
        }
        i = i + 1;
    }
    proof {
        if i == a@.len() {
            assert(a@.skip(i as int) =~= Seq::<u32>::empty());
        }
        if i == b@.len() {
            assert(b@.skip(i as int) =~= Seq::<u32>::empty());
        }
    }
    if a.len() == b.len() {
        Ordering::Equal
    } else if a.len() < b.len() {
        Ordering::Less
    } else {
        Ordering::Greater
    }
}

/// Parses a version string into its numeric components.
pub fn parse_components(s: &str) -> (r: Vec<u32>)
    ensures
        r@ == spec_components(s@),
{
    let ghost f = |p: Seq<char>|
        if parses_as_u32(p) {
            Some(u32_val(p) as u32)
        } else {
            None
        };
    let chars = chars_of(s);
    let seps: Vec<char> = vec!['.', '_'];
    proof {
        assert(seps@ =~= version_seps());
    }
    let pieces = split_on(&chars, &seps);
    let mut r: Vec<u32> = Vec::new();
    let n = pieces.len();
    proof {
        assert(pieces.deep_view().take(0).filter_map(f) =~= Seq::<u32>::empty());
    }
    for i in 0..n
        invariant
            n == pieces@.len(),
            pieces.deep_view() == spec_split(s@, version_seps()),
            f == (|p: Seq<char>|
                if parses_as_u32(p) {
                    Some(u32_val(p) as u32)
                } else {
                    None
                }),
            r@ == pieces.deep_view().take(i as int).filter_map(f),
    {
        proof {
            pieces.deep_view().lemma_filter_map_take_succ(f, i as int);
            assert(pieces.deep_view()[i as int] == pieces@[i as int]@);
        }
        match parse_u32(&pieces[i]) {
            Some(v) => {
                r.push(v);
            },
            None => {
            },
        }
    }
    proof {
        assert(pieces.deep_view().take(n as int) =~= pieces.deep_view());
    }
    r
}

impl JavaInstallation {
    /// Wraps a probed runtime.
    pub fn new(version: String, path: String) -> (r: JavaInstallation)
        ensures
            r.version == version,
            r.path == path,
    {
        JavaInstallation { version, path }
    }

    /// Compares two version strings by their numeric components.
    pub fn compare_versions(a: &str, b: &str) -> (r: Ordering)
        ensures
            r == spec_lex_cmp(spec_components(a@), spec_components(b@)),
    {
        let ca = parse_components(a);
        let cb = parse_components(b);
        cmp_components(&ca, &cb)
    }

    /// The first installation no other one exceeds: the one discovery
    /// order puts first.
    pub fn get_newest(installations: &Vec<JavaInstallation>) -> (r: JavaInstallation)
        requires
            installations@.len() > 0,
        ensures
            exists|k: int|
                0 <= k < installations@.len() && r == installations@[k] && (forall|j: int|
                    0 <= j < k ==> spec_lex_cmp(
                        spec_components((#[trigger] installations@[j]).version@),
                        spec_components(r.version@),
                    ) is Less),
            forall|i: int|
                0 <= i < installations@.len() ==> !(spec_lex_cmp(
                    spec_components((#[trigger] installations@[i]).version@),
                    spec_components(r.version@),
                ) is Greater),
    {
        let mut best: usize = 0;
        let mut best_comp = parse_components(installations[0].version.as_str());
        proof {
            lemma_lex_cmp_refl(best_comp@);
        }
        let n = installations.len();
        let mut i: usize = 1;
        while i < n
            invariant
                n == installations@.len(),
                best < i <= n,
                best_comp@ == spec_components(installations@[best as int].version@),
                forall|j: int|
                    0 <= j < best ==> spec_lex_cmp(
                        spec_components((#[trigger] installations@[j]).version@),
                        spec_components(installations@[best as int].version@),
                    ) is Less,
                forall|j: int|
                    0 <= j < i ==> !(spec_lex_cmp(
                        spec_components((#[trigger] installations@[j]).version@),
                        spec_components(installations@[best as int].version@),
                    ) is Greater),
            decreases n - i,
        {
            let comp = parse_components(installations[i].version.as_str());
            match cmp_components(&comp, &best_comp) {
                Ordering::Greater => {
                    proof {
                        let ghost old_best = best as int;
                        lemma_lex_cmp_flip(comp@, best_comp@);
                        assert forall|j: int| 0 <= j < i implies spec_lex_cmp(
                            spec_components((#[trigger] installations@[j]).version@),
                            comp@,
                        ) is Less by {
                            lemma_lex_cmp_trans(
                                spec_components(installations@[j].version@),
                                best_comp@,
                                comp@,
                            );
                        }
                    }
                    best = i;
                    best_comp = comp;
                    proof {
                        lemma_lex_cmp_refl(best_comp@);
                    }
                },
                _ => {
                    proof {
                        assert(!(spec_lex_cmp(comp@, best_comp@) is Greater));
                    }
                },
            }
            i = i + 1;
        }
        installations[best].clone()
    }

    /// The major version named by a version string: the minor number
    /// of the legacy `1.N` form, or the leading number of the modern
    /// form; `None` when neither fits in 16 bits or no digits lead.
    pub fn extract_java_version(input: &str) -> (r: Option<u16>)
        ensures
            r == spec_major_version(input@),
    {
        let chars = chars_of(input);
        if chars.len() > 2 {
            let legacy = chars[0] == '1' && chars[1] == '.' && {
                let c = chars[2];
                '0' <= c && c <= '9'
            };
            if legacy {
                return parse_run_u16(&chars, 2);
            }
        }
        if chars.len() > 0 {
            let c = chars[0];
            if '0' <= c && c <= '9' {
                return parse_run_u16(&chars, 0);
            }
        }
        None
    }
}

/// The length of the maximal digit run starting at `i`.
pub open spec fn digit_run_len(s: Seq<char>, i: int) -> int
    decreases s.len() - i,
{
    if 0 <= i < s.len() && is_digit(s[i]) {
        1 + digit_run_len(s, i + 1)
    } else {
        0
    }
}

/// The run length is non-negative, in range, the run is all digits,
/// and the run is maximal.
pub proof fn lemma_digit_run(s: Seq<char>, i: int)
    requires
        0 <= i <= s.len(),
    ensures
        0 <= digit_run_len(s, i),
        i + digit_run_len(s, i) <= s.len(),
        forall|j: int| i <= j < i + digit_run_len(s, i) ==> is_digit(#[trigger] s[j]),
        i + digit_run_len(s, i) < s.len() ==> !is_digit(s[i + digit_run_len(s, i)]),
    decreases s.len() - i,
{
    if i < s.len() && is_digit(s[i]) {
        lemma_digit_run(s, i + 1);
    }
}

/// The major version a version string names, as the version-report
/// pattern reads it: `1.` followed by digits uses those digits (the
/// legacy form), otherwise leading digits are the major version.
pub open spec fn spec_major_version(s: Seq<char>) -> Option<u16> {
    if s.len() > 2 && s[0] == '1' && s[1] == '.' && is_digit(s[2]) {
        spec_run_value(s, 2)
    } else if s.len() > 0 && is_digit(s[0]) {
        spec_run_value(s, 0)
    } else {
        None
    }
}

/// The value of the digit run starting at `i`, if it fits in 16 bits.
pub open spec fn spec_run_value(s: Seq<char>, i: int) -> Option<u16> {
    let run = s.subrange(i, i + digit_run_len(s, i));
    if digits_val(run) <= u16::MAX {
        Some(digits_val(run) as u16)
    } else {
        None
    }
}

/// Parses the digit run starting at `start`; overflow past 16 bits is
/// a failure, as parsing the run into a 16-bit number would fail.
fn parse_run_u16(chars: &Vec<char>, start: usize) -> (r: Option<u16>)
    requires
        start < chars@.len(),
        is_digit(chars@[start as int]),
    ensures
        r == spec_run_value(chars@, start as int),
{
    proof {
        lemma_digit_run(chars@, start as int);
    }
    let ghost run = chars@.subrange(
        start as int,
        start + digit_run_len(chars@, start as int),
    );
    let mut i = start;
    let mut acc: u64 = 0;
    while i < chars.len() && '0' <= chars[i] && chars[i] <= '9'
        invariant
            start <= i <= chars@.len(),
            start + digit_run_len(chars@, start as int) <= chars@.len(),
            run == chars@.subrange(start as int, start + digit_run_len(chars@, start as int)),
            i <= start + digit_run_len(chars@, start as int),
            forall|j: int|
                start <= j < start + digit_run_len(chars@, start as int) ==> is_digit(
                    #[trigger] chars@[j],
                ),
            start + digit_run_len(chars@, start as int) < chars@.len() ==> !is_digit(
                chars@[start + digit_run_len(chars@, start as int)],
            ),
            all_digits(run),
            acc == digits_val(run.take(i - start)),
            acc <= u16::MAX,
        decreases chars@.len() - i,
    {
        proof {
            if i as int == start + digit_run_len(chars@, start as int) {
                assert(!is_digit(chars@[i as int]));
                assert(false);
            }
        }
        let c = chars[i];
        let d: u64 = (c as u64) - ('0' as u64);
        acc = acc * 10 + d;
        proof {
            assert(run.take(i - start + 1).drop_last() =~= run.take(i - start));
            assert(run.take(i - start + 1).last() == run[i - start]);
            assert(run[i - start] == c);
        }
        i = i + 1;
        if acc > u16::MAX as u64 {
            proof {
                crate::strutil::lemma_digits_val_grow(run, i - start, u16::MAX as int);
                assert(run.take(run.len() as int) =~= run);
            }
            return None;
        }
    }
    proof {
        if (i as int) < start + digit_run_len(chars@, start as int) {
            assert(is_digit(chars@[i as int]));
            assert(false);
        }
        assert(i as int == start + digit_run_len(chars@, start as int));
        assert(run.take(i - start) =~= run);
    }
    Some(acc as u16)
}

/// What discovery deduplication keeps: every installation whose path
/// no earlier installation already used.
pub open spec fn spec_dedup_paths(list: Seq<JavaInstallation>) -> Seq<JavaInstallation>
    decreases list.len(),
{
    if list.len() == 0 {
        Seq::empty()
    } else {
        let front = spec_dedup_paths(list.drop_last());
        if exists|j: int| 0 <= j < list.len() - 1 && (#[trigger] list[j]).path@ == list.last().path@ {
            front
        } else {
            front.push(list.last())
        }
    }
}

/// Deduplication keeps a record of every path of the input, keeps
/// only records of the input, and leaves paths pairwise distinct.
pub proof fn lemma_dedup_paths(list: Seq<JavaInstallation>)
    ensures
        forall|a: int|
            0 <= a < spec_dedup_paths(list).len() ==> list.contains(
                #[trigger] spec_dedup_paths(list)[a],
            ),
        forall|k: int|
            0 <= k < list.len() ==> exists|a: int|
                0 <= a < spec_dedup_paths(list).len() && (#[trigger] spec_dedup_paths(list)[a]).path@
                    == (#[trigger] list[k]).path@,
        forall|a: int, b: int|
            0 <= a < b < spec_dedup_paths(list).len() ==> (#[trigger] spec_dedup_paths(list)[a]).path@
                != (#[trigger] spec_dedup_paths(list)[b]).path@,
    decreases list.len(),
{
    if list.len() > 0 {
        let front = list.drop_last();
        lemma_dedup_paths(front);
        let d = spec_dedup_paths(list);
        let df = spec_dedup_paths(front);
        assert(forall|j: int| 0 <= j < front.len() ==> front[j] == list[j]);
        assert forall|a: int| 0 <= a < d.len() implies list.contains(#[trigger] d[a]) by {
            if a < df.len() {
                assert(front.contains(df[a]));
                let w = choose|w: int| 0 <= w < front.len() && front[w] == df[a];
                assert(list[w] == d[a]);
            } else {
                assert(d[a] == list[list.len() - 1]);
            }
        }
        assert forall|k: int| 0 <= k < list.len() implies exists|a: int|
            0 <= a < d.len() && (#[trigger] d[a]).path@ == (#[trigger] list[k]).path@ by {
            if k < list.len() - 1 {
                let a = choose|a: int|
                    0 <= a < df.len() && (#[trigger] df[a]).path@ == front[k].path@;
                assert(d[a].path@ == list[k].path@);
            } else {
                if exists|j: int|
                    0 <= j < list.len() - 1 && (#[trigger] list[j]).path@ == list.last().path@ {
                    let j = choose|j: int|
                        0 <= j < list.len() - 1 && (#[trigger] list[j]).path@ == list.last().path@;
                    let a = choose|a: int|
                        0 <= a < df.len() && (#[trigger] df[a]).path@ == front[j].path@;
                    assert(d[a].path@ == list[k].path@);
                } else {
                    assert(d[d.len() - 1].path@ == list[k].path@);
                }
            }
        }
        assert forall|a: int, b: int|
            0 <= a < b < d.len() implies (#[trigger] d[a]).path@ != (#[trigger] d[b]).path@ by {
            if b < df.len() {
            } else {
                assert(d.len() == df.len() + 1 && b == df.len());
                assert(!(exists|j: int|
                    0 <= j < list.len() - 1 && (#[trigger] list[j]).path@ == list.last().path@));
                assert(front.contains(df[a]));
                let w = choose|w: int| 0 <= w < front.len() && front[w] == df[a];
                assert(list[w].path@ == d[a].path@);
            }
        }
    }
}

/// Drops every installation whose path an earlier one already used.
pub fn dedup_by_path(list: Vec<JavaInstallation>) -> (r: Vec<JavaInstallation>)
    ensures
        r@ == spec_dedup_paths(list@),
{
    let ghost orig = list@;
    let mut kept: Vec<JavaInstallation> = Vec::new();
    let mut list = list;
    proof {
        assert(orig.take(0) =~= Seq::<JavaInstallation>::empty());
        assert(list@ =~= orig.skip(0));
    }
    let n = list.len();
    let mut taken: usize = 0;
    while taken < n
        invariant
            n == orig.len(),
            list@ == orig.skip(taken as int),
            taken <= n,
            kept@ == spec_dedup_paths(orig.take(taken as int)),
        decreases n - taken,
    {
        let record = list.remove(0);
        proof {
            assert(list@ =~= orig.skip(taken + 1));
            assert(record == orig[taken as int]);
        }
        let mut seen = false;
        let m = kept.len();
        for a in 0..m
            invariant
                m == kept@.len(),
                seen ==> exists|b: int|
                    0 <= b < kept@.len() && (#[trigger] kept@[b]).path@ == record.path@,
                !seen ==> forall|b: int| 0 <= b < a ==> (#[trigger] kept@[b]).path@ != record.path@,
        {
            if crate::strutil::str_eq(kept[a].path.as_str(), record.path.as_str()) {
                seen = true;
            }
        }
        proof {
            let prefix = orig.take(taken as int);
            let ext = orig.take(taken + 1);
            lemma_dedup_paths(prefix);
            assert(ext.drop_last() =~= prefix);
            assert(ext.last() == orig[taken as int]);
            assert(forall|j: int| 0 <= j < prefix.len() ==> ext[j] == prefix[j]);
            if seen {
                let b = choose|b: int|
                    0 <= b < kept@.len() && (#[trigger] kept@[b]).path@ == record.path@;
                assert(prefix.contains(kept@[b]));
                let w = choose|w: int| 0 <= w < prefix.len() && prefix[w] == kept@[b];
                assert(ext[w].path@ == ext.last().path@);
                assert(spec_dedup_paths(ext) == kept@);
            } else {
                if exists|j: int|
                    0 <= j < ext.len() - 1 && (#[trigger] ext[j]).path@ == ext.last().path@ {
                    let j = choose|j: int|
                        0 <= j < ext.len() - 1 && (#[trigger] ext[j]).path@ == ext.last().path@;
                    let a = choose|a: int|
                        0 <= a < spec_dedup_paths(prefix).len() && (#[trigger] spec_dedup_paths(
                            prefix,
                        )[a]).path@ == (#[trigger] prefix[j]).path@;
                    assert(kept@[a].path@ == record.path@);
                    assert(false);
                }
                assert(spec_dedup_paths(ext) == spec_dedup_paths(prefix).push(record));
            }
        }
        if !seen {
            kept.push(record);
        }
        taken = taken + 1;
    }
    proof {
        assert(orig.take(n as int) =~= orig);
    }
    kept
}

/// Sorts installations descending by their version components, so the
/// highest-versioned installation comes first.
pub fn sort_desc(list: Vec<JavaInstallation>) -> (r: Vec<JavaInstallation>)
    ensures
        r@.to_multiset() == list@.to_multiset(),
        forall|i: int, j: int|
            0 <= i < j < r@.len() ==> !(spec_lex_cmp(
                spec_components((#[trigger] r@[i]).version@),
                spec_components((#[trigger] r@[j]).version@),
            ) is Less),
{
    broadcast use vstd::seq_lib::group_to_multiset_ensures;

    let ghost orig = list@;
    let mut out: Vec<JavaInstallation> = Vec::new();
    let mut list = list;
    proof {
        assert(list@ =~= orig.skip(0));
        assert(out@.to_multiset().add(orig.skip(0).to_multiset()) =~= orig.to_multiset());
    }
    let n = list.len();
    let mut taken: usize = 0;
    while taken < n
        invariant
            n == orig.len(),
            list@ == orig.skip(taken as int),
            taken <= n,
            out@.len() == taken,
            out@.to_multiset().add(list@.to_multiset()) == orig.to_multiset(),
            forall|i: int, j: int|
                0 <= i < j < out@.len() ==> !(spec_lex_cmp(
                    spec_components((#[trigger] out@[i]).version@),
                    spec_components((#[trigger] out@[j]).version@),
                ) is Less),
        decreases n - taken,
    {
        let ghost list_before = list@;
        let item = list.remove(0);
        proof {
            assert(list@ =~= list_before.drop_first());
            assert(item == list_before[0]);
            assert(list_before =~= seq![item] + list@);
            lemma_multiset_commutative(seq![item], list@);
        }
        let item_comp = parse_components(item.version.as_str());
        let mut pos: usize = 0;
        while pos < out.len() && !matches!(
            cmp_components(&parse_components(out[pos].version.as_str()), &item_comp),
            Ordering::Less,
        )
            invariant
                pos <= out@.len(),
                item_comp@ == spec_components(item.version@),
                forall|j: int|
                    0 <= j < pos ==> !(spec_lex_cmp(
                        spec_components((#[trigger] out@[j]).version@),
                        spec_components(item.version@),
                    ) is Less),
            decreases out@.len() - pos,
        {
            pos = pos + 1;
        }
        let ghost out_before = out@;
        out.insert(pos, item);
        proof {
            assert(out@ =~= out_before.take(pos as int) + seq![item] + out_before.skip(pos as int));
            lemma_multiset_commutative(
                out_before.take(pos as int) + seq![item],
                out_before.skip(pos as int),
            );
            lemma_multiset_commutative(out_before.take(pos as int), seq![item]);
            lemma_multiset_commutative(out_before.take(pos as int), out_before.skip(pos as int));
            assert(out_before.take(pos as int) + out_before.skip(pos as int) =~= out_before);
            assert(out@.to_multiset().add(list@.to_multiset()) =~= orig.to_multiset());
            if (pos as int) < out_before.len() {
                lemma_lex_cmp_flip(
                    spec_components(out_before[pos as int].version@),
                    spec_components(item.version@),
                );
            }
            assert forall|i: int, j: int|
                0 <= i < j < out@.len() implies !(spec_lex_cmp(
                spec_components((#[trigger] out@[i]).version@),
                spec_components((#[trigger] out@[j]).version@),
            ) is Less) by {
                let p = pos as int;
                if i < p && j == p {
                } else if i == p && j > p {
                    assert(spec_lex_cmp(
                        spec_components(item.version@),
                        spec_components(out_before[p].version@),
                    ) is Greater);
                    if j - 1 > p {
                        lemma_lex_cmp_geq_trans(
                            spec_components(item.version@),
                            spec_components(out_before[p].version@),
                            spec_components(out_before[j - 1].version@),
                        );
                    }
                } else if i < p && j > p {
                } else if i > p || j < p {
                } else {
                }
            }
        }
        taken = taken + 1;
    }
    proof {
        assert(list@ =~= Seq::<JavaInstallation>::empty());
        assert(out@.to_multiset().add(Seq::<JavaInstallation>::empty().to_multiset())
            =~= out@.to_multiset());
    }
    out
}

/// "Not smaller" is transitive.
pub proof fn lemma_lex_cmp_geq_trans(x: Seq<u32>, y: Seq<u32>, z: Seq<u32>)
    requires
        !(spec_lex_cmp(x, y) is Less),
        !(spec_lex_cmp(y, z) is Less),
    ensures
        !(spec_lex_cmp(x, z) is Less),
    decreases x.len() + y.len() + z.len(),
{
    if x.len() > 0 && y.len() > 0 && z.len() > 0 {
        if x[0] == y[0] && y[0] == z[0] {
            lemma_lex_cmp_geq_trans(x.drop_first(), y.drop_first(), z.drop_first());
        }
    }
}

/// The discovery order: duplicates by path dropped, then sorted
/// descending by version components.
pub fn discovered_order(list: Vec<JavaInstallation>) -> (r: Vec<JavaInstallation>)
    ensures
        r@.to_multiset() == spec_dedup_paths(list@).to_multiset(),
        forall|i: int, j: int|
            0 <= i < j < r@.len() ==> !(spec_lex_cmp(
                spec_components((#[trigger] r@[i]).version@),
                spec_components((#[trigger] r@[j]).version@),
            ) is Less),
{
    let deduped = dedup_by_path(list);
    sort_desc(deduped)
}

/// The first installation whose version names this major version;
/// an installation whose version does not parse is skipped.
pub fn find_compatible(installations: &Vec<JavaInstallation>, major: u16) -> (r: Option<
    &JavaInstallation,
>)
    ensures
        r is Some <==> exists|i: int|
            0 <= i < installations@.len() && spec_major_version(
                (#[trigger] installations@[i]).version@,
            ) == Some(major),
        r is Some ==> exists|i: int|
            0 <= i < installations@.len() && r->0 == &installations@[i] && spec_major_version(
                (#[trigger] installations@[i]).version@,
            ) == Some(major) && (forall|j: int|
                0 <= j < i ==> spec_major_version((#[trigger] installations@[j]).version@)
                    != Some(major)),
    {
        let n = installations.len();
        for i in 0..n
            invariant
                n == installations@.len(),
                forall|j: int|
                    0 <= j < i ==> spec_major_version((#[trigger] installations@[j]).version@)
                        != Some(major),
        {
            match JavaInstallation::extract_java_version(installations[i].version.as_str()) {
                Some(v) => {
                    if v == major {
                        return Some(&installations[i]);
                    }
                },
                None => {
                },
            }
        }
        None
    }

/// An ASCII whitespace character, as the report pattern's whitespace
/// class accepts it.
pub open spec fn is_space(c: char) -> bool {
    c == ' ' || c == '\t' || c == '\n' || c == '\r' || c == '\u{b}' || c == '\u{c}'
}

/// The length of the maximal whitespace run starting at `i`.
pub open spec fn space_run_len(s: Seq<char>, i: int) -> int
    decreases s.len() - i,
{
    if 0 <= i < s.len() && is_space(s[i]) {
        1 + space_run_len(s, i + 1)
    } else {
        0
    }
}

/// The whitespace run is non-negative, in range, all whitespace, and
/// maximal.
pub proof fn lemma_space_run(s: Seq<char>, i: int)
    requires
        0 <= i <= s.len(),
    ensures
        0 <= space_run_len(s, i),
        i + space_run_len(s, i) <= s.len(),
        forall|j: int| i <= j < i + space_run_len(s, i) ==> is_space(#[trigger] s[j]),
        i + space_run_len(s, i) < s.len() ==> !is_space(s[i + space_run_len(s, i)]),
    decreases s.len() - i,
{
    if i < s.len() && is_space(s[i]) {
        lemma_space_run(s, i + 1);
    }
}

/// Where the report's quote opens when a match starts at `i`.
pub open spec fn rep_quote(s: Seq<char>, i: int) -> int {
    i + 7 + space_run_len(s, i + 7)
}

/// Where the first dotted number ends.
pub open spec fn rep_p1(s: Seq<char>, i: int) -> int {
    rep_quote(s, i) + 1 + digit_run_len(s, rep_quote(s, i) + 1)
}

/// Where the second dotted number ends.
pub open spec fn rep_p2(s: Seq<char>, i: int) -> int {
    rep_p1(s, i) + 1 + digit_run_len(s, rep_p1(s, i) + 1)
}

/// Where the third dotted number ends: the end of the core version.
pub open spec fn rep_core_end(s: Seq<char>, i: int) -> int {
    rep_p2(s, i) + 1 + digit_run_len(s, rep_p2(s, i) + 1)
}

/// Where the optional update number starts: after a single `_` or `-`
/// separator when one follows the core.
pub open spec fn rep_update_start(s: Seq<char>, i: int) -> int {
    if rep_core_end(s, i) < s.len() && (s[rep_core_end(s, i)] == '_' || s[rep_core_end(s, i)]
        == '-') {
        rep_core_end(s, i) + 1
    } else {
        rep_core_end(s, i)
    }
}

/// Whether a version report matches at position `i`: the literal word,
/// whitespace, a quoted three-part dotted number, an optional
/// separator and update number, and the closing quote.
pub open spec fn rep_match_at(s: Seq<char>, i: int) -> bool {
    &&& 0 <= i
    &&& i + 7 <= s.len()
    &&& s.subrange(i, i + 7) == "version"@
    &&& space_run_len(s, i + 7) >= 1
    &&& rep_quote(s, i) < s.len() && s[rep_quote(s, i)] == '"'
    &&& digit_run_len(s, rep_quote(s, i) + 1) >= 1
    &&& rep_p1(s, i) < s.len() && s[rep_p1(s, i)] == '.'
    &&& digit_run_len(s, rep_p1(s, i) + 1) >= 1
    &&& rep_p2(s, i) < s.len() && s[rep_p2(s, i)] == '.'
    &&& digit_run_len(s, rep_p2(s, i) + 1) >= 1
    &&& rep_update_start(s, i) + digit_run_len(s, rep_update_start(s, i)) < s.len()
    &&& s[rep_update_start(s, i) + digit_run_len(s, rep_update_start(s, i))] == '"'
}

/// The version string a matching report yields: the dotted core, and
/// when update digits follow, an underscore and the update number.
pub open spec fn rep_value(s: Seq<char>, i: int) -> Seq<char> {
    let core = s.subrange(rep_quote(s, i) + 1, rep_core_end(s, i));
    let u = rep_update_start(s, i);
    let r4 = digit_run_len(s, u);
    if r4 > 0 {
        core + seq!['_'] + s.subrange(u, u + r4)
    } else {
        core
    }
}

/// The first matching report at or after position `i`.
pub open spec fn rep_match_from(s: Seq<char>, i: int) -> Option<Seq<char>>
    decreases s.len() - i,
    when 0 <= i
{
    if i >= s.len() {
        None
    } else if rep_match_at(s, i) {
        Some(rep_value(s, i))
    } else {
        rep_match_from(s, i + 1)
    }
}

/// The maximal digit run starting at `start`.
fn digit_run(chars: &Vec<char>, start: usize) -> (r: usize)
    requires
        start <= chars@.len(),
    ensures
        r == digit_run_len(chars@, start as int),
        start + r <= chars@.len(),
{
    proof {
        lemma_digit_run(chars@, start as int);
    }
    let mut j = start;
    while j < chars.len() && '0' <= chars[j] && chars[j] <= '9'
        invariant
            start <= j <= chars@.len(),
            forall|k: int| start <= k < j ==> is_digit(#[trigger] chars@[k]),
            j <= start + digit_run_len(chars@, start as int),
            start + digit_run_len(chars@, start as int) <= chars@.len(),
            forall|k: int|
                start <= k < start + digit_run_len(chars@, start as int) ==> is_digit(
                    #[trigger] chars@[k],
                ),
            start + digit_run_len(chars@, start as int) < chars@.len() ==> !is_digit(
                chars@[start + digit_run_len(chars@, start as int)],
            ),
        decreases chars@.len() - j,
    {
        proof {
            if j as int == start + digit_run_len(chars@, start as int) {
                assert(!is_digit(chars@[j as int]));
                assert(false);
            }
        }
        j = j + 1;
    }
    proof {
        if (j as int) < start + digit_run_len(chars@, start as int) {
            assert(is_digit(chars@[j as int]));
            assert(false);
        }
    }
    j - start
}

/// Whether this character is report whitespace.
fn space_char(c: char) -> (r: bool)
    ensures
        r == is_space(c),
{
    c == ' ' || c == '\t' || c == '\n' || c == '\r' || c == '\u{b}' || c == '\u{c}'
}

/// The maximal whitespace run starting at `start`.
fn space_run(chars: &Vec<char>, start: usize) -> (r: usize)
    requires
        start <= chars@.len(),
    ensures
        r == space_run_len(chars@, start as int),
        start + r <= chars@.len(),
{
    proof {
        lemma_space_run(chars@, start as int);
    }
    let mut j = start;
    while j < chars.len() && space_char(chars[j])
        invariant
            start <= j <= chars@.len(),
            forall|k: int| start <= k < j ==> is_space(#[trigger] chars@[k]),
            j <= start + space_run_len(chars@, start as int),
            start + space_run_len(chars@, start as int) <= chars@.len(),
            forall|k: int|
                start <= k < start + space_run_len(chars@, start as int) ==> is_space(
                    #[trigger] chars@[k],
                ),
            start + space_run_len(chars@, start as int) < chars@.len() ==> !is_space(
                chars@[start + space_run_len(chars@, start as int)],
            ),
        decreases chars@.len() - j,
    {
        proof {
            if j as int == start + space_run_len(chars@, start as int) {
                assert(!is_space(chars@[j as int]));
                assert(false);
            }
        }
        j = j + 1;
    }
    proof {
        if (j as int) < start + space_run_len(chars@, start as int) {
            assert(is_space(chars@[j as int]));
            assert(false);
        }
    }
    j - start
}

/// Copies `chars[from..to]` into a fresh vector.
fn copy_range(chars: &Vec<char>, from: usize, to: usize) -> (r: Vec<char>)
    requires
        from <= to <= chars@.len(),
    ensures
        r@ == chars@.subrange(from as int, to as int),
{
    let mut out: Vec<char> = Vec::new();
    let mut k = from;
    while k < to
        invariant
            from <= k <= to <= chars@.len(),
            out@ == chars@.subrange(from as int, k as int),
        decreases to - k,
    {
        out.push(chars[k]);
        proof {
            assert(out@ =~= chars@.subrange(from as int, k + 1));
        }
        k = k + 1;
    }
    out
}

/// Tries to read a version report starting exactly at `i`.
fn match_report_at(chars: &Vec<char>, i: usize) -> (r: Option<Vec<char>>)
    requires
        i < chars@.len(),
    ensures
        r is Some <==> rep_match_at(chars@, i as int),
        r matches Some(v) ==> v@ == rep_value(chars@, i as int),
{
    proof {
        reveal_strlit("version");
    }
    if chars.len() - i < 7 {
        return None;
    }
    if !(chars[i] == 'v' && chars[i + 1] == 'e' && chars[i + 2] == 'r' && chars[i + 3] == 's'
        && chars[i + 4] == 'i' && chars[i + 5] == 'o' && chars[i + 6] == 'n') {
        proof {
            if chars@.subrange(i as int, i + 7) == "version"@ {
                assert(chars@[i as int] == "version"@[0]);
                assert(chars@[i + 1] == "version"@[1]);
                assert(chars@[i + 2] == "version"@[2]);
                assert(chars@[i + 3] == "version"@[3]);
                assert(chars@[i + 4] == "version"@[4]);
                assert(chars@[i + 5] == "version"@[5]);
                assert(chars@[i + 6] == "version"@[6]);
            }
        }
        return None;
    }
    proof {
        assert(chars@.subrange(i as int, i + 7) =~= "version"@);
    }
    let w = space_run(chars, i + 7);
    if w == 0 {
        return None;
    }
    let q = i + 7 + w;
    if q >= chars.len() || chars[q] != '"' {
        return None;
    }
    let r1 = digit_run(chars, q + 1);
    if r1 == 0 {
        return None;
    }
    let p1 = q + 1 + r1;
    if p1 >= chars.len() || chars[p1] != '.' {
        return None;
    }
    let r2 = digit_run(chars, p1 + 1);
    if r2 == 0 {
        return None;
    }
    let p2 = p1 + 1 + r2;
    if p2 >= chars.len() || chars[p2] != '.' {
        return None;
    }
    let r3 = digit_run(chars, p2 + 1);
    if r3 == 0 {
        return None;
    }
    let core_end = p2 + 1 + r3;
    proof {
        assert(core_end as int == rep_core_end(chars@, i as int));
    }
    let u = if core_end < chars.len() && (chars[core_end] == '_' || chars[core_end] == '-') {
        core_end + 1
    } else {
        core_end
    };
    proof {
        assert(u as int == rep_update_start(chars@, i as int));
    }
    let r4 = digit_run(chars, u);
    let close = u + r4;
    if close >= chars.len() || chars[close] != '"' {
        return None;
    }
    let mut value = copy_range(chars, q + 1, core_end);
    if r4 > 0 {
        value.push('_');
        let update = copy_range(chars, u, u + r4);
        crate::strutil::push_chars(&mut value, &update);
    }
    proof {
        assert(value@ =~= rep_value(chars@, i as int));
    }
    Some(value)
}

/// Pulls the version string out of a runtime's self-reported probe
/// output: the first `version "N.N.N"` occurrence, with any `_`- or
/// `-`-separated update number appended after an underscore. `None`
/// when the report carries no such version.
pub fn parse_version_report(text: &str) -> (r: Option<String>)
    ensures
        r is Some <==> rep_match_from(text@, 0) is Some,
        r matches Some(v) ==> v@ == rep_match_from(text@, 0)->0,
{
    let chars = chars_of(text);
    let n = chars.len();
    for i in 0..n
        invariant
            n == chars@.len(),
            chars@ == text@,
            rep_match_from(text@, 0) == rep_match_from(text@, i as int),
        decreases n - i,
    {
        match match_report_at(&chars, i) {
            Some(v) => {
                return Some(crate::strutil::string_of(&v));
            },
            None => {
            },
        }
    }
    None
}

} // verus!
