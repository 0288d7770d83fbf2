//! The choices the installer offers, in the order it offers them: Windows
//! versions, builds, architectures, languages and edition groups of a
//! catalogue; the confirmation; and the small decisions around them
//! (command line, root check, where ESD files are kept).

use vstd::prelude::*;
use crate::catalog::{EsdFile, Release, WindowsVersion};
use crate::bcd::{chars_for_bytes, chars_for_bytes_exec, utf8_len, utf8_len_is, utf8_width};
use crate::text::{
    chars_eq, chars_of, join_path, join_path_exec, lemma_lex_total, lemma_lex_transitive, lex_compare,
    lex_lt, lines, lines_of, push_char, push_str, splitn, splitn_ranges, str_eq, str_eq_chars,
    string_from, string_of_range, trim, trimmed, Sep,
};

verus! {

/// Every element of `s` comes strictly before the ones after it.
pub open spec fn sorted_distinct(s: Seq<Seq<char>>) -> bool {
    forall|i: int, j: int| 0 <= i < j < s.len() ==> lex_lt(#[trigger] s[i], #[trigger] s[j])
}

/// The architectures of `catalog`.
pub open spec fn has_architecture(catalog: Seq<EsdFile>, a: Seq<char>) -> bool {
    exists|i: int| 0 <= i < catalog.len() && (#[trigger] catalog[i]).architecture@ == a
}

/// The architectures a catalogue offers, each once, in ascending order.
pub fn architectures(catalog: &[EsdFile]) -> (r: Vec<String>)
    ensures
        sorted_distinct(r@.map_values(|s: String| s@)),
        forall|a: Seq<char>|
            r@.map_values(|s: String| s@).contains(a) <==> has_architecture(catalog@, a),
{
    let mut keys: Vec<Vec<char>> = Vec::new();
    let mut k: usize = 0;
    while k < catalog.len()
        invariant
            k <= catalog@.len(),
            sorted_distinct(keys.deep_view()),
            forall|a: Seq<char>|
                keys.deep_view().contains(a) <==> has_architecture(catalog@.take(k as int), a),
        decreases catalog@.len() - k,
    {
        let a = chars_of(catalog[k].architecture.as_str());
        let ghost kv = keys.deep_view();
        let mut p: usize = 0;
        let mut found = false;
        let mut stop = false;
        while !stop && p < keys.len()
            invariant
                kv == keys.deep_view(),
                p <= kv.len(),
                forall|q: int| 0 <= q < p ==> lex_lt(#[trigger] kv[q], a@),
                found ==> stop,
                stop ==> p < kv.len(),
                stop && found ==> kv[p as int] == a@,
                stop && !found ==> !lex_lt(kv[p as int], a@) && kv[p as int] != a@,
            decreases kv.len() - p + (if stop {
                0int
            } else {
                1int
            }),
        {
            assert(keys@[p as int].deep_view() =~= keys@[p as int]@);
            assert(keys@[p as int]@ == kv[p as int]);
            let (lt, eq) = lex_compare(keys[p].as_slice(), a.as_slice());
            if eq {
                found = true;
                stop = true;
            } else if !lt {
                stop = true;
            } else {
                p = p + 1;
            }
        }
        proof {
            assert forall|x: Seq<char>|
                has_architecture(catalog@.take(k + 1), x) <==> (has_architecture(
                    catalog@.take(k as int),
                    x,
                ) || x == a@) by {
                if has_architecture(catalog@.take(k + 1), x) {
                    let i = choose|i: int|
                        0 <= i < catalog@.take(k + 1).len() && (#[trigger] catalog@.take(
                            k + 1,
                        )[i]).architecture@ == x;
                    if i < k {
                        assert(catalog@.take(k as int)[i] == catalog@.take(k + 1)[i]);
                    }
                }
                if has_architecture(catalog@.take(k as int), x) {
                    let i = choose|i: int|
                        0 <= i < catalog@.take(k as int).len() && (#[trigger] catalog@.take(
                            k as int,
                        )[i]).architecture@ == x;
                    assert(catalog@.take(k + 1)[i] == catalog@.take(k as int)[i]);
                }
                if x == a@ {
                    assert(catalog@.take(k + 1)[k as int] == catalog@[k as int]);
                }
            }
        }
        if !found {
            proof {
                if p < kv.len() {
                    lemma_lex_total(kv[p as int], a@);
                }
            }
            let ghost av = a@;
            assert(a.deep_view() =~= av);
            keys.insert(p, a);
            let ghost nv = keys.deep_view();
            assert(nv =~= kv.insert(p as int, a@));
            proof {
                assert forall|i: int, j: int| 0 <= i < j < nv.len() implies lex_lt(
                    #[trigger] nv[i],
                    #[trigger] nv[j],
                ) by {
                    if j < p {
                    } else if j == p {
                    } else if i < p {
                        // nv[i] < a < nv[j]
                        assert(nv[j] == kv[j - 1]);
                        if j - 1 > p {
                            assert(lex_lt(kv[p as int], kv[j - 1]));
                            lemma_lex_transitive(a@, kv[p as int], kv[j - 1]);
                        }
                        lemma_lex_transitive(nv[i], a@, nv[j]);
                    } else if i == p {
                        assert(nv[j] == kv[j - 1]);
                        if j - 1 > p {
                            assert(lex_lt(kv[p as int], kv[j - 1]));
                            lemma_lex_transitive(a@, kv[p as int], kv[j - 1]);
                        }
                    } else {
                        assert(nv[i] == kv[i - 1] && nv[j] == kv[j - 1]);
                    }
                }
                assert forall|x: Seq<char>| nv.contains(x) <==> (kv.contains(x) || x == a@) by {
                    if nv.contains(x) {
                        let i = choose|i: int| 0 <= i < nv.len() && nv[i] == x;
                        if i < p {
                            assert(kv[i] == x);
                        } else if i > p {
                            assert(kv[i - 1] == x);
                        }
                    }
                    if kv.contains(x) {
                        let i = choose|i: int| 0 <= i < kv.len() && kv[i] == x;
                        if i < p {
                            assert(nv[i] == x);
                        } else {
                            assert(nv[i + 1] == x);
                        }
                    }
                    if x == a@ {
                        assert(nv[p as int] == x);
                    }
                }
            }
        } else {
            assert(kv[p as int] == a@);
            assert(kv.contains(a@));
        }
        assert forall|x: Seq<char>|
            keys.deep_view().contains(x) <==> has_architecture(catalog@.take(k + 1), x) by {
            assert(kv.contains(x) <==> has_architecture(catalog@.take(k as int), x));
            assert(has_architecture(catalog@.take(k + 1), x) <==> (has_architecture(
                catalog@.take(k as int),
                x,
            ) || x == a@));
            if x == a@ {
                assert(keys.deep_view().contains(x));
            }
            if !found {
                assert(keys.deep_view().contains(x) <==> (kv.contains(x) || x == a@));
            }
        }
        k = k + 1;
    }
    assert(catalog@.take(catalog@.len() as int) =~= catalog@);
    let mut r: Vec<String> = Vec::new();
    let mut j: usize = 0;
    while j < keys.len()
        invariant
            j <= keys@.len(),
            r@.map_values(|s: String| s@) == keys.deep_view().take(j as int),
        decreases keys@.len() - j,
    {
        assert(keys@[j as int].deep_view() =~= keys@[j as int]@);
        let s = string_from(keys[j].as_slice());
        assert(s@ == keys.deep_view()[j as int]);
        let ghost old_r = r@;
        r.push(s);
        assert(r@.map_values(|s: String| s@) =~= old_r.map_values(|s: String| s@).push(
            keys.deep_view()[j as int],
        ));
        assert(r@.map_values(|s: String| s@) =~= keys.deep_view().take(j + 1));
        j = j + 1;
    }
    assert(keys.deep_view().take(keys@.len() as int) =~= keys.deep_view());
    r
}

} // verus!

verus! {

/// File `i` of `cat` is for architecture `arch`, and no earlier file for
/// that architecture has its language code: it is the one offered for its
/// language.
pub open spec fn first_of_language(cat: Seq<EsdFile>, arch: Seq<char>, i: int) -> bool {
    &&& 0 <= i < cat.len()
    &&& cat[i].architecture@ == arch
    &&& forall|j: int|
        0 <= j < i ==> !((#[trigger] cat[j]).architecture@ == arch && cat[j].language_code@
            == cat[i].language_code@)
}

/// The positions `r` into `cat` are ordered by language name, and files of
/// the same language name keep their catalogue order.
pub open spec fn sorted_by_language(cat: Seq<EsdFile>, r: Seq<usize>) -> bool {
    forall|p: int, q: int|
        0 <= p < q < r.len() ==> lex_lt(
            cat[#[trigger] r[p] as int].language@,
            cat[#[trigger] r[q] as int].language@,
        ) || (cat[r[p] as int].language@ == cat[r[q] as int].language@ && r[p] < r[q])
}

/// Whether `code` is among `seen`.
fn seen_contains(seen: &Vec<Vec<char>>, code: &[char]) -> (b: bool)
    ensures
        b == seen.deep_view().contains(code@),
{
    let ghost sv = seen.deep_view();
    let mut s: usize = 0;
    while s < seen.len()
        invariant
            sv == seen.deep_view(),
            s <= sv.len(),
            forall|t: int| 0 <= t < s ==> sv[t] != code@,
        decreases sv.len() - s,
    {
        assert(seen@[s as int].deep_view() =~= seen@[s as int]@);
        let (_, eq) = lex_compare(seen[s].as_slice(), code);
        if eq {
            assert(sv[s as int] == code@);
            return true;
        }
        s = s + 1;
    }
    false
}

/// Inserts position `i` into `r`, keeping it sorted by language name and
/// after the positions of equal names.
fn insert_by_language(catalog: &[EsdFile], r: &mut Vec<usize>, i: usize)
    requires
        i < catalog@.len(),
        sorted_by_language(catalog@, old(r)@),
        old(r)@.no_duplicates(),
        forall|q: int| 0 <= q < old(r)@.len() ==> old(r)@[q] < i,
    ensures
        sorted_by_language(catalog@, final(r)@),
        final(r)@.no_duplicates(),
        forall|q: int| 0 <= q < final(r)@.len() ==> final(r)@[q] <= i,
        forall|x: usize| final(r)@.contains(x) <==> (old(r)@.contains(x) || x == i),
{
    let lang = chars_of(catalog[i].language.as_str());
    let ghost rv = r@;
    let mut p: usize = 0;
    let mut stop = false;
    while p < r.len() && !stop
        invariant
            rv == r@,
            p <= rv.len(),
            forall|q: int| 0 <= q < rv.len() ==> rv[q] < i,
            i < catalog@.len(),
            lang@ == catalog@[i as int].language@,
            forall|q: int| 0 <= q < p ==> !lex_lt(lang@, catalog@[#[trigger] rv[q] as int].language@),
            stop ==> p < rv.len() && lex_lt(lang@, catalog@[rv[p as int] as int].language@),
        decreases rv.len() - p + (if stop {
            0int
        } else {
            1int
        }),
    {
        let other = chars_of(catalog[r[p]].language.as_str());
        let (lt, _) = lex_compare(lang.as_slice(), other.as_slice());
        if lt {
            stop = true;
        } else {
            p = p + 1;
        }
    }
    r.insert(p, i);
    proof {
        let nv = r@;
        assert(nv =~= rv.insert(p as int, i));
        let li = catalog@[i as int].language@;
        assert forall|a: int, b: int| 0 <= a < b < nv.len() implies lex_lt(
            catalog@[#[trigger] nv[a] as int].language@,
            catalog@[#[trigger] nv[b] as int].language@,
        ) || (catalog@[nv[a] as int].language@ == catalog@[nv[b] as int].language@ && nv[a]
            < nv[b]) by {
            if b < p {
                assert(nv[a] == rv[a] && nv[b] == rv[b]);
            } else if b == p {
                let la = catalog@[rv[a] as int].language@;
                assert(!lex_lt(li, la));
                if la != li {
                    lemma_lex_total(la, li);
                }
            } else if a > p {
                assert(nv[a] == rv[a - 1] && nv[b] == rv[b - 1]);
            } else {
                let lb = catalog@[rv[b - 1] as int].language@;
                let lp = catalog@[rv[p as int] as int].language@;
                assert(lex_lt(li, lp));
                if b - 1 > p {
                    if lex_lt(lp, lb) {
                        lemma_lex_transitive(li, lp, lb);
                    }
                }
                assert(lex_lt(li, lb));
                if a < p {
                    let la = catalog@[rv[a] as int].language@;
                    assert(!lex_lt(li, la));
                    if la != li {
                        lemma_lex_total(la, li);
                        lemma_lex_transitive(la, li, lb);
                    }
                }
            }
        }
        assert forall|x: usize| nv.contains(x) <==> (rv.contains(x) || x == i) by {
            if nv.contains(x) {
                let t = choose|t: int| 0 <= t < nv.len() && nv[t] == x;
                if t < p {
                    assert(rv[t] == x);
                } else if t > p {
                    assert(rv[t - 1] == x);
                }
            }
            if rv.contains(x) {
                let t = choose|t: int| 0 <= t < rv.len() && rv[t] == x;
                if t < p {
                    assert(nv[t] == x);
                } else {
                    assert(nv[t + 1] == x);
                }
            }
            if x == i {
                assert(nv[p as int] == x);
            }
        }
        assert forall|a: int, b: int| 0 <= a < b < nv.len() implies nv[a] != nv[b] by {
            if a != p && b != p {
                let a2 = if a < p {
                    a
                } else {
                    a - 1
                };
                let b2 = if b < p {
                    b
                } else {
                    b - 1
                };
                assert(nv[a] == rv[a2] && nv[b] == rv[b2]);
            } else if a == p {
                assert(nv[b] == rv[b - 1]);
            } else {
                assert(nv[a] == rv[a]);
            }
        }
        assert forall|q: int| 0 <= q < nv.len() implies nv[q] <= i by {
            if q < p {
                assert(nv[q] == rv[q]);
            } else if q > p {
                assert(nv[q] == rv[q - 1]);
            }
        }
    }
}

/// The language codes of the files for `arch` among the first `i`.
pub open spec fn codes_seen(cat: Seq<EsdFile>, arch: Seq<char>, i: int, c: Seq<char>) -> bool {
    exists|j: int|
        0 <= j < i && (#[trigger] cat[j]).architecture@ == arch && cat[j].language_code@ == c
}

/// The language menu for architecture `arch`: the first file of each
/// language code among the files for `arch`, ordered by language name (a
/// stable sort, so equal names keep catalogue order). The result holds
/// positions into `catalog`.
pub fn language_choices(catalog: &[EsdFile], arch: &str) -> (r: Vec<usize>)
    ensures
        r@.no_duplicates(),
        forall|x: usize| r@.contains(x) <==> first_of_language(catalog@, arch@, x as int),
        forall|p: int| 0 <= p < r@.len() ==> r@[p] < catalog@.len(),
        sorted_by_language(catalog@, r@),
{
    let arch_c = chars_of(arch);
    let n = catalog.len();
    let mut seen: Vec<Vec<char>> = Vec::new();
    let mut r: Vec<usize> = Vec::new();
    let mut i: usize = 0;
    while i < n
        invariant
            n == catalog@.len(),
            arch_c@ == arch@,
            i <= n,
            forall|c: Seq<char>|
                seen.deep_view().contains(c) <==> codes_seen(catalog@, arch@, i as int, c),
            r@.no_duplicates(),
            forall|p: int| 0 <= p < r@.len() ==> r@[p] < i,
            forall|x: usize|
                r@.contains(x) <==> (x < i && first_of_language(catalog@, arch@, x as int)),
            sorted_by_language(catalog@, r@),
        decreases n - i,
    {
        let a = chars_of(catalog[i].architecture.as_str());
        let ghost old_seen = seen.deep_view();
        let ghost old_r = r@;
        let ghost code_i = catalog@[i as int].language_code@;
        let ghost matched = catalog@[i as int].architecture@ == arch@;
        if chars_eq(a.as_slice(), arch_c.as_slice()) {
            let code = chars_of(catalog[i].language_code.as_str());
            if !seen_contains(&seen, code.as_slice()) {
                proof {
                    assert forall|j: int| 0 <= j < i implies !((#[trigger] catalog@[j]).architecture@
                        == arch@ && catalog@[j].language_code@ == code_i) by {
                        if catalog@[j].architecture@ == arch@ && catalog@[j].language_code@ == code_i {
                            assert(codes_seen(catalog@, arch@, i as int, code_i));
                        }
                    }
                    assert(first_of_language(catalog@, arch@, i as int));
                }
                insert_by_language(catalog, &mut r, i);
                assert(code.deep_view() =~= code@);
                seen.push(code);
                assert(seen.deep_view() =~= old_seen.push(code_i));
                proof {
                    assert forall|x: usize| r@.contains(x) <==> (x < i + 1 && first_of_language(
                        catalog@,
                        arch@,
                        x as int,
                    )) by {
                        if x == i {
                        } else if x < i {
                        } else {
                            assert(!old_r.contains(x));
                        }
                    }
                }
            } else {
                proof {
                    assert(codes_seen(catalog@, arch@, i as int, code_i));
                    let j = choose|j: int|
                        0 <= j < i && (#[trigger] catalog@[j]).architecture@ == arch@
                            && catalog@[j].language_code@ == code_i;
                    assert(!first_of_language(catalog@, arch@, i as int));
                    assert forall|x: usize| r@.contains(x) <==> (x < i + 1 && first_of_language(
                        catalog@,
                        arch@,
                        x as int,
                    )) by {
                        if x == i {
                            assert(!r@.contains(x));
                        }
                    }
                }
            }
        } else {
            proof {
                assert(!first_of_language(catalog@, arch@, i as int));
                assert forall|x: usize| r@.contains(x) <==> (x < i + 1 && first_of_language(
                    catalog@,
                    arch@,
                    x as int,
                )) by {
                    if x == i {
                        assert(!r@.contains(x));
                    }
                }
            }
        }
        proof {
            assert forall|c: Seq<char>|
                seen.deep_view().contains(c) <==> codes_seen(catalog@, arch@, i + 1, c) by {
                if codes_seen(catalog@, arch@, i + 1, c) {
                    let j = choose|j: int|
                        0 <= j < i + 1 && (#[trigger] catalog@[j]).architecture@ == arch@
                            && catalog@[j].language_code@ == c;
                    if j < i {
                        assert(codes_seen(catalog@, arch@, i as int, c));
                        assert(old_seen.contains(c));
                        let t = choose|t: int| 0 <= t < old_seen.len() && old_seen[t] == c;
                        assert(seen.deep_view()[t] == c);
                    } else {
                        assert(c == code_i);
                        assert(matched);
                        if seen.deep_view() == old_seen {
                            assert(old_seen.contains(c));
                        } else {
                            assert(seen.deep_view()[old_seen.len() as int] == c);
                        }
                    }
                }
                if seen.deep_view().contains(c) {
                    let t = choose|t: int| 0 <= t < seen.deep_view().len() && seen.deep_view()[t] == c;
                    if t < old_seen.len() {
                        assert(old_seen[t] == c);
                        assert(old_seen.contains(c));
                        assert(codes_seen(catalog@, arch@, i as int, c));
                        let j = choose|j: int|
                            0 <= j < i && (#[trigger] catalog@[j]).architecture@ == arch@
                                && catalog@[j].language_code@ == c;
                        assert(0 <= j < i + 1);
                    } else {
                        assert(c == code_i);
                        assert(catalog@[i as int].architecture@ == arch@);
                    }
                }
            }
        }
        i = i + 1;
    }
    r
}

} // verus!

verus! {

// ---------------------------------------------------------------------------
// Menu labels
// ---------------------------------------------------------------------------

/// The menu label of a Windows version.
pub open spec fn version_label(number: Seq<char>) -> Seq<char> {
    "Windows "@ + number
}

/// The labels of the version menu, one per version, in order.
pub fn version_labels(versions: &[WindowsVersion]) -> (r: Vec<String>)
    ensures
        r@.len() == versions@.len(),
        forall|i: int| 0 <= i < r@.len() ==> (#[trigger] r@[i])@ == version_label(versions@[i].number@),
{
    let mut r: Vec<String> = Vec::new();
    let mut i: usize = 0;
    while i < versions.len()
        invariant
            i <= versions@.len(),
            r@.len() == i,
            forall|j: int| 0 <= j < i ==> (#[trigger] r@[j])@ == version_label(versions@[j].number@),
        decreases versions@.len() - i,
    {
        let mut s = String::new();
        push_str(&mut s, "Windows ");
        push_str(&mut s, versions[i].number.as_str());
        r.push(s);
        i = i + 1;
    }
    r
}

/// `d` may be cut after its 4th and 6th byte if it is 8 bytes long: those
/// bytes end characters.
pub open spec fn date_splits(d: Seq<char>) -> bool {
    utf8_len(d) == 8 ==> (chars_for_bytes(d, 4) is Some && chars_for_bytes(d, 6) is Some)
}

/// A release date as shown: an 8-byte `YYYYMMDD` becomes `YYYY-MM-DD`,
/// anything else is shown as it is.
pub open spec fn spec_fmt_date(d: Seq<char>) -> Seq<char> {
    if utf8_len(d) == 8 {
        let a = chars_for_bytes(d, 4)->0 as int;
        let b = chars_for_bytes(d, 6)->0 as int;
        d.take(a) + seq!['-'] + d.subrange(a, b) + seq!['-'] + d.skip(b)
    } else {
        d
    }
}

/// The characters that fill more bytes are at least as many.
proof fn lemma_chars_for_bytes_mono(s: Seq<char>, x: nat, y: nat)
    requires
        x <= y,
        chars_for_bytes(s, x) is Some,
        chars_for_bytes(s, y) is Some,
    ensures
        chars_for_bytes(s, x)->0 <= chars_for_bytes(s, y)->0,
    decreases s.len(),
{
    if x > 0 {
        let w = utf8_width(s[0]);
        lemma_chars_for_bytes_mono(s.drop_first(), (x - w) as nat, (y - w) as nat);
    }
}

/// Whether [`fmt_date`] can take `d`.
pub fn date_splits_exec(d: &str) -> (b: bool)
    ensures
        b == date_splits(d@),
{
    let cs = chars_of(d);
    let n = cs.len();
    assert(cs@.subrange(0, n as int) =~= cs@);
    if !utf8_len_is(cs.as_slice(), 0, n, 8) {
        return true;
    }
    let a = chars_for_bytes_exec(cs.as_slice(), 0, n, 4);
    let b = chars_for_bytes_exec(cs.as_slice(), 0, n, 6);
    a.is_some() && b.is_some()
}

/// A release date as the build menu shows it (see [`spec_fmt_date`]).
pub fn fmt_date(d: &str) -> (s: String)
    requires
        date_splits(d@),
    ensures
        s@ == spec_fmt_date(d@),
{
    let cs = chars_of(d);
    let n = cs.len();
    assert(cs@.subrange(0, n as int) =~= cs@);
    if !utf8_len_is(cs.as_slice(), 0, n, 8) {
        return string_from(cs.as_slice());
    }
    let a = match chars_for_bytes_exec(cs.as_slice(), 0, n, 4) {
        Some(a) => a,
        None => 0,
    };
    let b = match chars_for_bytes_exec(cs.as_slice(), 0, n, 6) {
        Some(b) => b,
        None => 0,
    };
    proof {
        lemma_chars_for_bytes_mono(d@, 4, 6);
    }
    let mut s = string_of_range(cs.as_slice(), 0, a);
    push_char(&mut s, '-');
    let mid = string_of_range(cs.as_slice(), a, b);
    push_str(&mut s, mid.as_str());
    push_char(&mut s, '-');
    let tail = string_of_range(cs.as_slice(), b, n);
    push_str(&mut s, tail.as_str());
    assert(cs@.subrange(0, a as int) =~= d@.take(a as int));
    assert(cs@.subrange(b as int, n as int) =~= d@.skip(b as int));
    s
}

} // verus!

verus! {

/// The menu label of a build.
pub open spec fn build_label(build: Seq<char>, date: Seq<char>) -> Seq<char> {
    "build "@ + build + "   ("@ + spec_fmt_date(date) + ")"@
}

/// Whether every release date of `releases` can be shown (see
/// [`date_splits`]).
pub open spec fn dates_split(releases: Seq<Release>) -> bool {
    forall|i: int| 0 <= i < releases.len() ==> date_splits((#[trigger] releases[i]).date@)
}

/// The labels of the build menu, one per release, in order.
pub fn build_labels(releases: &[Release]) -> (r: Vec<String>)
    requires
        dates_split(releases@),
    ensures
        r@.len() == releases@.len(),
        forall|i: int|
            0 <= i < r@.len() ==> (#[trigger] r@[i])@ == build_label(
                releases@[i].build@,
                releases@[i].date@,
            ),
{
    let mut r: Vec<String> = Vec::new();
    let mut i: usize = 0;
    while i < releases.len()
        invariant
            i <= releases@.len(),
            dates_split(releases@),
            r@.len() == i,
            forall|j: int|
                0 <= j < i ==> (#[trigger] r@[j])@ == build_label(
                    releases@[j].build@,
                    releases@[j].date@,
                ),
        decreases releases@.len() - i,
    {
        let mut s = String::new();
        push_str(&mut s, "build ");
        push_str(&mut s, releases[i].build.as_str());
        push_str(&mut s, "   (");
        let date = fmt_date(releases[i].date.as_str());
        push_str(&mut s, date.as_str());
        push_str(&mut s, ")");
        r.push(s);
        i = i + 1;
    }
    r
}

/// Whether every release date can be shown, tested before the build menu
/// is built.
pub fn all_dates_split(releases: &[Release]) -> (b: bool)
    ensures
        b == dates_split(releases@),
{
    let mut i: usize = 0;
    while i < releases.len()
        invariant
            i <= releases@.len(),
            forall|j: int| 0 <= j < i ==> date_splits((#[trigger] releases@[j]).date@),
        decreases releases@.len() - i,
    {
        if !date_splits_exec(releases[i].date.as_str()) {
            return false;
        }
        i = i + 1;
    }
    true
}

/// The menu label of a language.
pub open spec fn language_label(language: Seq<char>, code: Seq<char>) -> Seq<char> {
    language + "  ("@ + code + ")"@
}

/// The labels of the language menu for the files at `positions`.
pub fn language_labels(catalog: &[EsdFile], positions: &[usize]) -> (r: Vec<String>)
    requires
        forall|p: int| 0 <= p < positions@.len() ==> positions@[p] < catalog@.len(),
    ensures
        r@.len() == positions@.len(),
        forall|p: int|
            0 <= p < r@.len() ==> (#[trigger] r@[p])@ == language_label(
                catalog@[positions@[p] as int].language@,
                catalog@[positions@[p] as int].language_code@,
            ),
{
    let mut r: Vec<String> = Vec::new();
    let mut p: usize = 0;
    while p < positions.len()
        invariant
            p <= positions@.len(),
            forall|q: int| 0 <= q < positions@.len() ==> positions@[q] < catalog@.len(),
            r@.len() == p,
            forall|q: int|
                0 <= q < p ==> (#[trigger] r@[q])@ == language_label(
                    catalog@[positions@[q] as int].language@,
                    catalog@[positions@[q] as int].language_code@,
                ),
        decreases positions@.len() - p,
    {
        let f = &catalog[positions[p]];
        let mut s = String::new();
        push_str(&mut s, f.language.as_str());
        push_str(&mut s, "  (");
        push_str(&mut s, f.language_code.as_str());
        push_str(&mut s, ")");
        r.push(s);
        p = p + 1;
    }
    r
}

/// File `i` of `cat` is for architecture `arch` and language code `code`.
pub open spec fn is_candidate(cat: Seq<EsdFile>, arch: Seq<char>, code: Seq<char>, i: int) -> bool {
    0 <= i < cat.len() && cat[i].architecture@ == arch && cat[i].language_code@ == code
}

/// The ESD files for an architecture and a language code, as positions into
/// `catalog` in catalogue order.
pub fn edition_candidates(catalog: &[EsdFile], arch: &str, code: &str) -> (r: Vec<usize>)
    ensures
        forall|p: int, q: int| 0 <= p < q < r@.len() ==> r@[p] < r@[q],
        forall|x: usize| r@.contains(x) <==> is_candidate(catalog@, arch@, code@, x as int),
{
    let arch_c = chars_of(arch);
    let code_c = chars_of(code);
    let mut r: Vec<usize> = Vec::new();
    let mut i: usize = 0;
    while i < catalog.len()
        invariant
            i <= catalog@.len(),
            arch_c@ == arch@,
            code_c@ == code@,
            forall|p: int| 0 <= p < r@.len() ==> r@[p] < i,
            forall|p: int, q: int| 0 <= p < q < r@.len() ==> r@[p] < r@[q],
            forall|x: usize|
                r@.contains(x) <==> (x < i && is_candidate(catalog@, arch@, code@, x as int)),
        decreases catalog@.len() - i,
    {
        let f = &catalog[i];
        let ghost old_r = r@;
        if str_eq_chars(f.architecture.as_str(), arch_c.as_slice()) && str_eq_chars(
            f.language_code.as_str(),
            code_c.as_slice(),
        ) {
            r.push(i);
            proof {
                assert forall|x: usize| r@.contains(x) <==> (x < i + 1 && is_candidate(
                    catalog@,
                    arch@,
                    code@,
                    x as int,
                )) by {
                    if r@.contains(x) {
                        let t = choose|t: int| 0 <= t < r@.len() && r@[t] == x;
                        if t < old_r.len() {
                            assert(old_r.contains(x));
                        }
                    }
                    if x < i && is_candidate(catalog@, arch@, code@, x as int) {
                        assert(old_r.contains(x));
                        let t = choose|t: int| 0 <= t < old_r.len() && old_r[t] == x;
                        assert(r@[t] == x);
                    }
                    if x == i {
                        assert(r@[old_r.len() as int] == x);
                    }
                }
            }
        } else {
            proof {
                assert forall|x: usize| r@.contains(x) <==> (x < i + 1 && is_candidate(
                    catalog@,
                    arch@,
                    code@,
                    x as int,
                )) by {
                    if x == i && r@.contains(x) {
                        let t = choose|t: int| 0 <= t < r@.len() && r@[t] == x;
                    }
                }
            }
        }
        i = i + 1;
    }
    r
}

/// The two answers of the confirmation menu for disk `name`; the first one
/// erases the disk.
pub open spec fn confirm_labels(name: Seq<char>) -> Seq<Seq<char>> {
    seq!["yes — erase /dev/"@ + name + " and install"@, "no  — abort"@]
}

/// The labels of the confirmation menu.
pub fn confirm_choices(name: &str) -> (r: Vec<String>)
    ensures
        r@.map_values(|s: String| s@) == confirm_labels(name@),
{
    let mut yes = String::new();
    push_str(&mut yes, "yes — erase /dev/");
    push_str(&mut yes, name);
    push_str(&mut yes, " and install");
    let mut no = String::new();
    push_str(&mut no, "no  — abort");
    let r = vec![yes, no];
    assert(r@.map_values(|s: String| s@) =~= confirm_labels(name@));
    r
}

} // verus!

verus! {

// ---------------------------------------------------------------------------
// Where ESD files are kept
// ---------------------------------------------------------------------------

/// The home directory a `/etc/passwd` line gives `user`: the line's first
/// `':'`-separated field is `user` and its sixth field is not empty.
pub open spec fn home_of_line(line: Seq<char>, user: Seq<char>) -> Option<Seq<char>> {
    let f = splitn(line, 7, Sep::Char(':'));
    if f[0] == user && f.len() > 5 && f[5].len() > 0 {
        Some(f[5])
    } else {
        None
    }
}

/// The home directory the first matching line of `ls` gives `user`.
pub open spec fn home_in_lines(ls: Seq<Seq<char>>, user: Seq<char>) -> Option<Seq<char>>
    decreases ls.len(),
{
    if ls.len() == 0 {
        None
    } else {
        match home_of_line(ls[0], user) {
            Some(h) => Some(h),
            None => home_in_lines(ls.drop_first(), user),
        }
    }
}

/// The home directory of `user` according to the `/etc/passwd` text
/// `passwd`, if a line names the user with a non-empty home.
pub open spec fn spec_passwd_home(passwd: Seq<char>, user: Seq<char>) -> Option<Seq<char>> {
    home_in_lines(lines(passwd), user)
}

/// `splitn` always yields a first piece.
proof fn lemma_splitn_nonempty(s: Seq<char>, n: nat, sep: Sep)
    ensures
        splitn(s, n, sep).len() >= 1,
{
}

/// The home directory of `user` in the `/etc/passwd` text `passwd` (see
/// [`spec_passwd_home`]).
pub fn passwd_home(passwd: &str, user: &str) -> (r: Option<String>)
    ensures
        r matches Some(h) ==> spec_passwd_home(passwd@, user@) == Some(h@),
        r is None ==> spec_passwd_home(passwd@, user@) is None,
{
    let cs = chars_of(passwd);
    let uc = chars_of(user);
    let ls = lines_of(cs.as_slice());
    let ghost lv = ls.deep_view();
    assert(lv.skip(0) =~= lv);
    let mut i: usize = 0;
    while i < ls.len()
        invariant
            lv == ls.deep_view(),
            lv == lines(passwd@),
            uc@ == user@,
            i <= lv.len(),
            spec_passwd_home(passwd@, user@) == home_in_lines(lv.skip(i as int), user@),
        decreases lv.len() - i,
    {
        let line = ls[i].as_slice();
        assert(ls@[i as int].deep_view() =~= ls@[i as int]@);
        assert(line@ == lv[i as int]);
        assert(lv.skip(i as int).drop_first() =~= lv.skip(i + 1));
        assert(lv.skip(i as int)[0] == lv[i as int]);
        let ghost f = splitn(line@, 7, Sep::Char(':'));
        proof {
            lemma_splitn_nonempty(line@, 7, Sep::Char(':'));
            assert(line@.subrange(0, line@.len() as int) =~= line@);
        }
        let r = splitn_ranges(line, 0, line.len(), 7, Sep::Char(':'));
        let name = string_of_range(line, r[0].0, r[0].1);
        if str_eq_chars(name.as_str(), uc.as_slice()) && r.len() > 5 && r[5].1 > r[5].0 {
            let home = string_of_range(line, r[5].0, r[5].1);
            assert(home_of_line(line@, user@) == Some(f[5]));
            return Some(home);
        }
        assert(home_of_line(line@, user@) is None);
        i = i + 1;
    }
    None
}

/// The directory ESD files are kept in: `Documents/ESDs` under a home
/// directory. When run through `sudo` by another user (`sudo_user` set, not
/// empty and not `root`) whose home `passwd` gives, that user's home;
/// otherwise `home`, or `/root` where `home` is unset.
pub open spec fn spec_esd_dir(
    sudo_user: Option<Seq<char>>,
    passwd: Option<Seq<char>>,
    home: Option<Seq<char>>,
) -> Seq<char> {
    let base = if sudo_user is Some && sudo_user->0.len() > 0 && sudo_user->0 != "root"@
        && passwd is Some && spec_passwd_home(passwd->0, sudo_user->0) is Some {
        spec_passwd_home(passwd->0, sudo_user->0)->0
    } else if home is Some {
        home->0
    } else {
        "/root"@
    };
    join_path(join_path(base, "Documents"@), "ESDs"@)
}

/// The directory ESD files are kept in (see [`spec_esd_dir`]). `sudo_user`
/// and `home` are the `SUDO_USER` and `HOME` variables, `passwd` the text of
/// `/etc/passwd`, each `None` where it could not be read.
pub fn esd_dir(sudo_user: Option<&str>, passwd: Option<&str>, home: Option<&str>) -> (d: String)
    ensures
        d@ == spec_esd_dir(
            match sudo_user {
                Some(u) => Some(u@),
                None => None,
            },
            match passwd {
                Some(p) => Some(p@),
                None => None,
            },
            match home {
                Some(h) => Some(h@),
                None => None,
            },
        ),
{
    let mut base: Option<String> = None;
    if let Some(u) = sudo_user {
        if u.unicode_len() > 0 && !str_eq(u, "root") {
            if let Some(p) = passwd {
                base = passwd_home(p, u);
            }
        }
    }
    let base = match base {
        Some(b) => b,
        None => match home {
            Some(h) => string_from(chars_of(h).as_slice()),
            None => "/root".to_owned(),
        },
    };
    let documents = join_path_exec(base.as_str(), "Documents");
    join_path_exec(documents.as_str(), "ESDs")
}

// ---------------------------------------------------------------------------
// Command line and privileges
// ---------------------------------------------------------------------------

/// What the command line asks for.
#[derive(Debug, Clone)]
pub enum Invocation {
    /// No argument: run the installer.
    Install,
    /// `update`: replace the binary with the latest release.
    Update,
    /// `--version`, `-v` or `version`: print the version.
    Version,
    /// Any other first argument.
    Unknown(String),
}

/// What the first command-line argument `arg` asks for.
pub fn parse_invocation(arg: Option<&str>) -> (c: Invocation)
    ensures
        arg is None ==> c is Install,
        arg matches Some(a) ==> (if a@ == "update"@ {
            c is Update
        } else if a@ == "--version"@ || a@ == "-v"@ || a@ == "version"@ {
            c is Version
        } else {
            c matches Invocation::Unknown(s) && s@ == a@
        }),
{
    match arg {
        None => Invocation::Install,
        Some(a) => {
            if str_eq(a, "update") {
                Invocation::Update
            } else if str_eq(a, "--version") || str_eq(a, "-v") || str_eq(a, "version") {
                Invocation::Version
            } else {
                Invocation::Unknown(string_from(chars_of(a).as_slice()))
            }
        },
    }
}

/// Whether the output of `id -u` names the root user: it is `0` once
/// surrounding whitespace is removed.
pub fn uid_is_root(id_output: &str) -> (b: bool)
    ensures
        b == (trim(id_output@) == "0"@),
{
    let t = trimmed(id_output);
    str_eq(t.as_str(), "0")
}

} // verus!
