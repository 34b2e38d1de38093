//! Names of skins: display names from folder ids, slugs for imported
//! folders, and the first free id in the skins folder.
use vstd::prelude::*;
use crate::paths::{is_plain_name, join, path_file_name, path_join};
use crate::text::{
    append_chars, char_is_whitespace, char_lowercase, char_uppercase, chars_of, decimal,
    is_ascii_alnum, is_ascii_digit, is_ascii_lower, is_ascii_upper, ascii_lower_seq, ascii_upper_seq, ascii_upper, ascii_lower, is_ascii, lemma_ascii_case_roundtrip, is_ascii_alphanumeric, is_whitespace, lemma_decimal_injective, lowercase_char,
    push_decimal, string_of, uppercase_char,
};

verus! {

// ---------------------------------------------------------------------------
// Display names.
// ---------------------------------------------------------------------------
/// `-` and `_` separate words of an id, as a space would.
pub open spec fn sep_to_space(c: char) -> char {
    if c == '-' || c == '_' {
        ' '
    } else {
        c
    }
}

/// The maximal runs of non-whitespace chars of `s`, in order
/// (what `str::split_whitespace` yields).
pub open spec fn words(s: Seq<char>) -> Seq<Seq<char>>
    decreases s.len(),
{
    if s.len() == 0 {
        Seq::empty()
    } else {
        let prev = words(s.drop_last());
        let c = s.last();
        if char_is_whitespace(c) {
            prev
        } else if s.len() >= 2 && !char_is_whitespace(s[s.len() - 2]) {
            prev.update(prev.len() - 1, prev.last().push(c))
        } else {
            prev.push(seq![c])
        }
    }
}

/// A word with its first char uppercased (`char::to_uppercase`) and the rest kept.
pub open spec fn capitalize(w: Seq<char>) -> Seq<char> {
    if w.len() == 0 {
        w
    } else {
        char_uppercase(w[0]) + w.drop_first()
    }
}

/// The words joined by single spaces.
pub open spec fn join_words(ws: Seq<Seq<char>>) -> Seq<char>
    decreases ws.len(),
{
    if ws.len() == 0 {
        Seq::empty()
    } else if ws.len() == 1 {
        ws[0]
    } else {
        join_words(ws.drop_last()) + seq![' '] + ws.last()
    }
}

/// The display name of a skin id: separators become spaces, and the words
/// of the result are capitalized and joined by single spaces.
pub open spec fn display_name(id: Seq<char>) -> Seq<char> {
    join_words(
        words(id.map_values(|c: char| sep_to_space(c))).map_values(|w: Seq<char>| capitalize(w)),
    )
}

/// Every word is non-empty, and a string that ends in a non-whitespace char
/// has at least one word.
pub proof fn lemma_words_nonempty(s: Seq<char>)
    ensures
        forall|j: int| 0 <= j < words(s).len() ==> #[trigger] words(s)[j].len() > 0,
        s.len() > 0 && !char_is_whitespace(s.last()) ==> words(s).len() > 0,
    decreases s.len(),
{
    if s.len() > 0 {
        let p = s.drop_last();
        lemma_words_nonempty(p);
        if !char_is_whitespace(s.last()) && s.len() >= 2 && !char_is_whitespace(s[s.len() - 2]) {
            assert(p.last() == s[s.len() - 2]);
            assert(words(p).len() > 0);
        }
    }
}

proof fn lemma_join_extend_last(ws: Seq<Seq<char>>, c: char)
    requires
        ws.len() > 0,
        ws.last().len() > 0,
    ensures
        join_words(
            ws.update(ws.len() - 1, ws.last().push(c)).map_values(|w: Seq<char>| capitalize(w)),
        ) == join_words(ws.map_values(|w: Seq<char>| capitalize(w))).push(c),
{
    let f = |w: Seq<char>| capitalize(w);
    let n = ws.len() - 1;
    let m = ws.map_values(f);
    let m2 = ws.update(n, ws.last().push(c)).map_values(f);
    let w = ws.last();
    assert(capitalize(w.push(c)) =~= capitalize(w).push(c)) by {
        assert(w.push(c).drop_first() =~= w.drop_first().push(c));
    }
    assert(m2 =~= m.update(n, m.last().push(c)));
    if ws.len() == 1 {
    } else {
        assert(m2.drop_last() =~= m.drop_last());
        assert(join_words(m2) =~= join_words(m.drop_last()) + seq![' '] + m.last().push(c));
        assert(join_words(m) =~= join_words(m.drop_last()) + seq![' '] + m.last());
    }
}

proof fn lemma_join_push(ws: Seq<Seq<char>>, c: char)
    ensures
        join_words(ws.push(seq![c]).map_values(|w: Seq<char>| capitalize(w))) == if ws.len() == 0 {
            char_uppercase(c)
        } else {
            join_words(ws.map_values(|w: Seq<char>| capitalize(w))) + seq![' '] + char_uppercase(c)
        },
{
    let f = |w: Seq<char>| capitalize(w);
    let m = ws.map_values(f);
    let m2 = ws.push(seq![c]).map_values(f);
    assert(capitalize(seq![c]) =~= char_uppercase(c));
    assert(m2 =~= m.push(char_uppercase(c)));
    assert(m2.drop_last() =~= m);
}

/// The display name of a skin id: `-` and `_` become spaces, the id is split
/// at whitespace, each word's first char is uppercased, and the words are
/// joined by single spaces.
pub fn display_name_from_id(id: &str) -> (r: String)
    ensures
        r@ == display_name(id@),
        r@.len() == 0 <==> forall|i: int|
            0 <= i < id@.len() ==> char_is_whitespace(#[trigger] sep_to_space(id@[i])),
{
    let chars = chars_of(id);
    let ghost mapped = id@.map_values(|c: char| sep_to_space(c));
    let ghost f = |w: Seq<char>| capitalize(w);
    let mut out: Vec<char> = Vec::new();
    let mut in_word = false;
    let mut has_words = false;
    assert(mapped.take(0) =~= Seq::<char>::empty());
    for i in 0..chars.len()
        invariant
            chars@ == id@,
            mapped == id@.map_values(|c: char| sep_to_space(c)),
            f == (|w: Seq<char>| capitalize(w)),
            out@ == join_words(words(mapped.take(i as int)).map_values(f)),
            has_words == (words(mapped.take(i as int)).len() > 0),
            in_word == (i > 0 && !char_is_whitespace(mapped[i - 1])),
            out@.len() > 0 <==> has_words,
            has_words <==> exists|k: int| 0 <= k < i && !char_is_whitespace(#[trigger] mapped[k]),
    {
        let c0 = chars[i];
        let c = if c0 == '-' || c0 == '_' {
            ' '
        } else {
            c0
        };
        let ghost prefix = mapped.take(i as int);
        let ghost s = mapped.take(i + 1);
        assert(s.drop_last() =~= prefix);
        assert(s.last() == c);
        proof {
            lemma_words_nonempty(prefix);
        }
        let ws = is_whitespace(c);
        if ws {
            in_word = false;
        } else if in_word {
            proof {
                assert(s[s.len() - 2] == mapped[i - 1]);
                lemma_join_extend_last(words(prefix), c);
            }
            out.push(c);
        } else {
            proof {
                if i > 0 {
                    assert(s[s.len() - 2] == mapped[i - 1]);
                }
                lemma_join_push(words(prefix), c);
            }
            if has_words {
                out.push(' ');
            }
            let up = uppercase_char(c);
            append_chars(&mut out, &up);
            has_words = true;
            in_word = true;
            assert(!char_is_whitespace(mapped[i as int]));
        }
        assert(has_words <==> exists|k: int| 0 <= k < i + 1 && !char_is_whitespace(
            #[trigger] mapped[k],
        )) by {
            if has_words && !ws && !(exists|k: int| 0 <= k < i && !char_is_whitespace(#[trigger] mapped[k])) {
                assert(!char_is_whitespace(mapped[i as int]));
            }
        }
    }
    assert(mapped.take(chars.len() as int) =~= mapped);
    proof {
        if forall|i: int|
            0 <= i < id@.len() ==> char_is_whitespace(#[trigger] sep_to_space(id@[i])) {
            assert forall|k: int| 0 <= k < chars.len() implies char_is_whitespace(
                #[trigger] mapped[k],
            ) by {
                assert(mapped[k] == sep_to_space(id@[k]));
                assert(char_is_whitespace(sep_to_space(id@[k])));
            }
        }
        if !(exists|k: int| 0 <= k < chars.len() && !char_is_whitespace(#[trigger] mapped[k])) {
            assert forall|i: int| 0 <= i < id@.len() implies char_is_whitespace(
                #[trigger] sep_to_space(id@[i]),
            ) by {
                assert(mapped[i] == sep_to_space(id@[i]));
                assert(char_is_whitespace(mapped[i]));
            }
        }
    }
    string_of(&out)
}

// ---------------------------------------------------------------------------
// Slugs.
// ---------------------------------------------------------------------------
/// The chars of `s` lowercased one by one with `char::to_lowercase`.
pub open spec fn lowercase_each(s: Seq<char>) -> Seq<char>
    decreases s.len(),
{
    if s.len() == 0 {
        Seq::empty()
    } else {
        lowercase_each(s.drop_last()) + char_lowercase(s.last())
    }
}

/// ASCII alphanumerics are kept; every run of other chars becomes one `-`.
pub open spec fn collapse_to_dashes(s: Seq<char>) -> Seq<char>
    decreases s.len(),
{
    if s.len() == 0 {
        Seq::empty()
    } else {
        let r = collapse_to_dashes(s.drop_last());
        let c = s.last();
        if is_ascii_alnum(c) {
            r.push(c)
        } else if r.len() > 0 && r.last() == '-' {
            r
        } else {
            r.push('-')
        }
    }
}

pub open spec fn trim_leading_dashes(s: Seq<char>) -> Seq<char>
    decreases s.len(),
{
    if s.len() > 0 && s[0] == '-' {
        trim_leading_dashes(s.drop_first())
    } else {
        s
    }
}

pub open spec fn trim_trailing_dashes(s: Seq<char>) -> Seq<char>
    decreases s.len(),
{
    if s.len() > 0 && s.last() == '-' {
        trim_trailing_dashes(s.drop_last())
    } else {
        s
    }
}

/// The slug used when a name has no ASCII letter or digit.
pub open spec fn fallback_slug() -> Seq<char> {
    seq!['s', 'k', 'i', 'n']
}

/// The slug of a name: lowercased, runs of anything but ASCII letters and
/// digits made single dashes, dashes at both ends removed, and `skin` when
/// nothing is left.
pub open spec fn slug(name: Seq<char>) -> Seq<char> {
    let t = trim_trailing_dashes(trim_leading_dashes(collapse_to_dashes(lowercase_each(name))));
    if t.len() == 0 {
        fallback_slug()
    } else {
        t
    }
}

/// What every slug is made of: ASCII letters, digits and single dashes
/// between them.
pub open spec fn is_slug_shaped(s: Seq<char>) -> bool {
    &&& s.len() > 0
    &&& forall|i: int| 0 <= i < s.len() ==> is_ascii_alnum(#[trigger] s[i]) || s[i] == '-'
    &&& s[0] != '-'
    &&& s.last() != '-'
    &&& forall|i: int| 0 <= i < s.len() - 1 ==> !(#[trigger] s[i] == '-' && s[i + 1] == '-')
}

/// An ASCII lowercase letter, an ASCII digit or `-`.
pub open spec fn is_lower_slug_char(c: char) -> bool {
    is_ascii_lower(c) || is_ascii_digit(c) || c == '-'
}

/// A slug as `slugify` writes it: slug-shaped, with lowercase letters only.
pub open spec fn is_lower_slug(s: Seq<char>) -> bool {
    &&& is_slug_shaped(s)
    &&& forall|i: int| 0 <= i < s.len() ==> is_lower_slug_char(#[trigger] s[i])
}

/// Collapsing leaves alone a string of letters, digits and single dashes
/// that does not start with a dash.
proof fn lemma_collapse_fixed(s: Seq<char>)
    requires
        forall|i: int| 0 <= i < s.len() ==> is_ascii_alnum(#[trigger] s[i]) || s[i] == '-',
        forall|i: int| 0 <= i < s.len() - 1 ==> !(#[trigger] s[i] == '-' && s[i + 1] == '-'),
        s.len() > 0 ==> s[0] != '-',
    ensures
        collapse_to_dashes(s) == s,
    decreases s.len(),
{
    if s.len() > 0 {
        let p = s.drop_last();
        assert forall|i: int| 0 <= i < p.len() - 1 implies !(#[trigger] p[i] == '-' && p[i + 1]
            == '-') by {
            assert(p[i] == s[i] && p[i + 1] == s[i + 1]);
        }
        assert forall|i: int| 0 <= i < p.len() implies is_ascii_alnum(#[trigger] p[i]) || p[i]
            == '-' by {
            assert(p[i] == s[i]);
        }
        lemma_collapse_fixed(p);
        if s.len() >= 2 {
            assert(p.last() == s[s.len() - 2]);
        }
        assert(p.push(s.last()) =~= s);
    }
}

proof fn lemma_collapse_shape(s: Seq<char>)
    ensures
        forall|i: int|
            0 <= i < collapse_to_dashes(s).len() ==> is_ascii_alnum(
                #[trigger] collapse_to_dashes(s)[i],
            ) || collapse_to_dashes(s)[i] == '-',
        forall|i: int|
            0 <= i < collapse_to_dashes(s).len() - 1 ==> !(#[trigger] collapse_to_dashes(s)[i]
                == '-' && collapse_to_dashes(s)[i + 1] == '-'),
    decreases s.len(),
{
    if s.len() > 0 {
        lemma_collapse_shape(s.drop_last());
        let r = collapse_to_dashes(s.drop_last());
        let out = collapse_to_dashes(s);
        assert forall|i: int| 0 <= i < out.len() - 1 implies !(#[trigger] out[i] == '-' && out[i
            + 1] == '-') by {
            if i + 1 < r.len() {
                assert(out[i] == r[i] && out[i + 1] == r[i + 1]);
            }
        }
    }
}

proof fn lemma_trim_leading(s: Seq<char>, k: int)
    requires
        0 <= k <= s.len(),
        forall|i: int| 0 <= i < k ==> s[i] == '-',
        k == s.len() || s[k] != '-',
    ensures
        trim_leading_dashes(s) == s.skip(k),
    decreases k,
{
    if k > 0 {
        lemma_trim_leading(s.drop_first(), k - 1);
        assert(s.drop_first().skip(k - 1) =~= s.skip(k));
    } else {
        assert(s.skip(0) =~= s);
    }
}

proof fn lemma_trim_trailing(s: Seq<char>, e: int)
    requires
        0 <= e <= s.len(),
        forall|i: int| e <= i < s.len() ==> s[i] == '-',
        e == 0 || s[e - 1] != '-',
    ensures
        trim_trailing_dashes(s) == s.take(e),
    decreases s.len() - e,
{
    if e < s.len() {
        lemma_trim_trailing(s.drop_last(), e);
        assert(s.drop_last().take(e) =~= s.take(e));
    } else {
        assert(s.take(e) =~= s);
    }
}

/// The maximal runs of ASCII letters and digits of `t`, in order.
pub open spec fn alnum_runs(t: Seq<char>) -> Seq<Seq<char>>
    decreases t.len(),
{
    if t.len() == 0 {
        Seq::empty()
    } else {
        let prev = alnum_runs(t.drop_last());
        let c = t.last();
        if !is_ascii_alnum(c) {
            prev
        } else if t.len() >= 2 && is_ascii_alnum(t[t.len() - 2]) {
            prev.update(prev.len() - 1, prev.last().push(c))
        } else {
            prev.push(seq![c])
        }
    }
}

/// Runs joined by single dashes.
pub open spec fn join_dashes(rs: Seq<Seq<char>>) -> Seq<char>
    decreases rs.len(),
{
    if rs.len() == 0 {
        Seq::empty()
    } else if rs.len() == 1 {
        rs[0]
    } else {
        join_dashes(rs.drop_last()) + seq!['-'] + rs.last()
    }
}

/// What the runs of a string are: non-empty runs of letters and digits;
/// there is one as soon as the string ends in a letter or digit, and none
/// only when it has no letter or digit at all.
proof fn lemma_alnum_runs_facts(t: Seq<char>)
    ensures
        forall|j: int| 0 <= j < alnum_runs(t).len() ==> (#[trigger] alnum_runs(t)[j]).len() > 0,
        forall|j: int, k: int|
            0 <= j < alnum_runs(t).len() && 0 <= k < alnum_runs(t)[j].len() ==> is_ascii_alnum(
                #[trigger] alnum_runs(t)[j][k],
            ),
        t.len() > 0 && is_ascii_alnum(t.last()) ==> alnum_runs(t).len() > 0,
        alnum_runs(t).len() == 0 ==> forall|i: int| 0 <= i < t.len() ==> !is_ascii_alnum(#[trigger] t[i]),
    decreases t.len(),
{
    if t.len() > 0 {
        let p = t.drop_last();
        lemma_alnum_runs_facts(p);
        let prev = alnum_runs(p);
        let r = alnum_runs(t);
        let c = t.last();
        if is_ascii_alnum(c) && t.len() >= 2 && is_ascii_alnum(t[t.len() - 2]) {
            assert(p.last() == t[t.len() - 2]);
            let n = prev.len() - 1;
            assert forall|j: int, k: int| 0 <= j < r.len() && 0 <= k < r[j].len() implies is_ascii_alnum(
                #[trigger] r[j][k],
            ) by {
                if j < n {
                    assert(r[j] == prev[j]);
                } else if k < prev[n].len() {
                    assert(r[j][k] == prev[n][k]);
                }
            }
            assert forall|j: int| 0 <= j < r.len() implies (#[trigger] r[j]).len() > 0 by {
                if j < n {
                    assert(r[j] == prev[j]);
                }
            }
        } else if is_ascii_alnum(c) {
            assert forall|j: int, k: int| 0 <= j < r.len() && 0 <= k < r[j].len() implies is_ascii_alnum(
                #[trigger] r[j][k],
            ) by {
                if j < prev.len() {
                    assert(r[j] == prev[j]);
                }
            }
            assert forall|j: int| 0 <= j < r.len() implies (#[trigger] r[j]).len() > 0 by {
                if j < prev.len() {
                    assert(r[j] == prev[j]);
                }
            }
        }
        if r.len() == 0 {
            assert forall|i: int| 0 <= i < t.len() implies !is_ascii_alnum(#[trigger] t[i]) by {
                if i < p.len() {
                    assert(t[i] == p[i]);
                }
            }
        }
    }
}

/// The join of non-empty runs starts with the first run's first char and
/// ends with the last run's last char.
proof fn lemma_join_dashes_ends(rs: Seq<Seq<char>>)
    requires
        rs.len() > 0,
        forall|j: int| 0 <= j < rs.len() ==> (#[trigger] rs[j]).len() > 0,
    ensures
        join_dashes(rs).len() > 0,
        join_dashes(rs)[0] == rs[0][0],
        join_dashes(rs).last() == rs.last().last(),
    decreases rs.len(),
{
    if rs.len() > 1 {
        let init = rs.drop_last();
        assert forall|j: int| 0 <= j < init.len() implies (#[trigger] init[j]).len() > 0 by {
            assert(init[j] == rs[j]);
        }
        lemma_join_dashes_ends(init);
        assert(init[0] == rs[0]);
        assert(rs[rs.len() - 1].len() > 0);
    } else {
        assert(rs[0].len() > 0);
    }
}

/// Collapsing a string gives its runs joined by dashes, with one more dash
/// in front if it starts with a char other than a letter or digit, and one
/// more at the end if it ends with one and has a run.
proof fn lemma_collapse_is_runs(t: Seq<char>)
    ensures
        collapse_to_dashes(t) == (if t.len() > 0 && !is_ascii_alnum(t[0]) {
            seq!['-']
        } else {
            Seq::<char>::empty()
        }) + join_dashes(alnum_runs(t)) + (if t.len() > 0 && !is_ascii_alnum(t.last())
            && alnum_runs(t).len() > 0 {
            seq!['-']
        } else {
            Seq::<char>::empty()
        }),
    decreases t.len(),
{
    let e = Seq::<char>::empty();
    let dash = seq!['-'];
    if t.len() == 0 {
        assert(e + e + e =~= e);
    } else {
        let p = t.drop_last();
        let c = t.last();
        lemma_collapse_is_runs(p);
        lemma_alnum_runs_facts(p);
        lemma_alnum_runs_facts(t);
        let rp = alnum_runs(p);
        let rt = alnum_runs(t);
        let lp = if p.len() > 0 && !is_ascii_alnum(p[0]) { dash } else { e };
        let lt = if t.len() > 0 && !is_ascii_alnum(t[0]) { dash } else { e };
        let jp = join_dashes(rp);
        let jt = join_dashes(rt);
        let cp = collapse_to_dashes(p);
        if p.len() > 0 {
            assert(p[0] == t[0]);
            assert(lp == lt);
        }
        if is_ascii_alnum(c) {
            assert(collapse_to_dashes(t) == cp.push(c));
            if p.len() > 0 && is_ascii_alnum(p.last()) {
                assert(p.last() == t[t.len() - 2]);
                let n = rp.len() - 1;
                assert(rt == rp.update(n, rp.last().push(c)));
                if rp.len() == 1 {
                    assert(jt == rt[0]);
                    assert(jp == rp[0]);
                } else {
                    assert(rt.drop_last() =~= rp.drop_last());
                    assert(jt == join_dashes(rp.drop_last()) + dash + rp.last().push(c));
                    assert(jp == join_dashes(rp.drop_last()) + dash + rp.last());
                }
                assert(jt =~= jp.push(c));
                assert(cp == lp + jp + e);
                assert(collapse_to_dashes(t) =~= lt + jt + e);
            } else {
                if p.len() > 0 {
                    assert(p.last() == t[t.len() - 2]);
                }
                assert(rt == rp.push(seq![c]));
                assert(rt.drop_last() =~= rp);
                if p.len() == 0 {
                    assert(rt.len() == 1);
                    assert(jt == seq![c]);
                    assert(collapse_to_dashes(t) =~= lt + jt + e);
                } else if rp.len() > 0 {
                    assert(jt == jp + dash + seq![c]);
                    assert(cp == lp + jp + dash);
                    assert(collapse_to_dashes(t) =~= lt + jt + e);
                } else {
                    assert(!is_ascii_alnum(p[0]));
                    assert(cp == lp + e + e);
                    assert(jt == seq![c]);
                    assert(collapse_to_dashes(t) =~= lt + jt + e);
                }
            }
        } else {
            assert(rt == rp);
            if p.len() == 0 {
                assert(cp == e);
                assert(collapse_to_dashes(t) =~= lt + jt + e);
            } else if is_ascii_alnum(p.last()) {
                assert(rp.len() > 0);
                lemma_join_dashes_ends(rp);
                assert(cp == lp + jp + e);
                assert(cp.last() == jp.last());
                assert(jp.last() == rp.last().last());
                assert(is_ascii_alnum(rp.last()[rp.last().len() - 1]));
                assert(collapse_to_dashes(t) == cp.push('-'));
                assert(collapse_to_dashes(t) =~= lt + jt + dash);
            } else if rp.len() > 0 {
                assert(cp == lp + jp + dash);
                assert(cp.last() == '-');
                assert(collapse_to_dashes(t) == cp);
                assert(collapse_to_dashes(t) =~= lt + jt + dash);
            } else {
                assert(!is_ascii_alnum(p[0]));
                assert(cp == lp + e + e);
                assert(cp =~= dash);
                assert(collapse_to_dashes(t) == cp);
                assert(collapse_to_dashes(t) =~= lt + jt + e);
            }
        }
    }
}

/// Every char of the lowercased name other than an ASCII letter or digit
/// separates: the slug of a name is the runs of ASCII letters and digits of
/// the lowercased name joined by single dashes, or `skin` if there are none.
pub proof fn lemma_slug_is_alnum_runs(name: Seq<char>)
    ensures
        slug(name) == if alnum_runs(lowercase_each(name)).len() == 0 {
            fallback_slug()
        } else {
            join_dashes(alnum_runs(lowercase_each(name)))
        },
{
    let t = lowercase_each(name);
    let rs = alnum_runs(t);
    let e = Seq::<char>::empty();
    let dash = seq!['-'];
    lemma_collapse_is_runs(t);
    lemma_alnum_runs_facts(t);
    let lead = if t.len() > 0 && !is_ascii_alnum(t[0]) { dash } else { e };
    let trail = if t.len() > 0 && !is_ascii_alnum(t.last()) && rs.len() > 0 { dash } else { e };
    let j = join_dashes(rs);
    let c = collapse_to_dashes(t);
    assert(c == lead + j + trail);
    if rs.len() == 0 {
        assert(c =~= lead);
        lemma_trim_leading(c, c.len() as int);
        assert(c.skip(c.len() as int) =~= e);
        lemma_trim_trailing(e, 0);
        assert(e.take(0) =~= e);
    } else {
        lemma_join_dashes_ends(rs);
        assert(is_ascii_alnum(rs[0][0]));
        assert(is_ascii_alnum(rs.last()[rs.last().len() - 1]));
        let k = lead.len() as int;
        assert(c[k] == j[0]);
        lemma_trim_leading(c, k);
        let rest = c.skip(k);
        assert(rest =~= j + trail);
        assert(rest[j.len() - 1] == j.last());
        lemma_trim_trailing(rest, j.len() as int);
        assert(rest.take(j.len() as int) =~= j);
    }
}

/// The slug of `name`: the name lowercased with `char::to_lowercase`, every
/// run of chars other than ASCII letters and digits replaced by one `-`,
/// dashes trimmed from both ends, and `skin` if nothing is left.  Every
/// slug is non-empty and made of ASCII letters, digits and single inner
/// dashes.
pub fn slugify(name: &str) -> (r: String)
    ensures
        r@ == slug(name@),
        r@ == if alnum_runs(lowercase_each(name@)).len() == 0 {
            fallback_slug()
        } else {
            join_dashes(alnum_runs(lowercase_each(name@)))
        },
        is_slug_shaped(r@),
        is_lower_slug(r@),
        is_lower_slug(name@) ==> r@ == name@,
{
    proof {
        lemma_slug_is_alnum_runs(name@);
    }
    let chars = chars_of(name);
    let mut slug_chars: Vec<char> = Vec::new();
    let mut previous_dash = false;
    assert(name@.take(0) =~= Seq::<char>::empty());
    for i in 0..chars.len()
        invariant
            chars@ == name@,
            slug_chars@ == collapse_to_dashes(lowercase_each(name@.take(i as int))),
            previous_dash == (slug_chars@.len() > 0 && slug_chars@.last() == '-'),
            forall|k: int|
                0 <= k < slug_chars@.len() ==> is_lower_slug_char(#[trigger] slug_chars@[k]),
            is_lower_slug(name@) ==> lowercase_each(name@.take(i as int)) == name@.take(i as int),
    {
        let lower = lowercase_char(chars[i]);
        proof {
            if is_lower_slug(name@) {
                assert(name@.take(i + 1) =~= name@.take(i as int) + seq![name@[i as int]]);
                assert(is_ascii_lower(name@[i as int]) || is_ascii_digit(name@[i as int])
                    || name@[i as int] == '-');
            }
        }
        let ghost base = lowercase_each(name@.take(i as int));
        assert(name@.take(i + 1).drop_last() =~= name@.take(i as int));
        assert(lowercase_each(name@.take(i + 1)) == base + lower@);
        assert(base + lower@.take(0) =~= base);
        for j in 0..lower.len()
            invariant
                slug_chars@ == collapse_to_dashes(base + lower@.take(j as int)),
                previous_dash == (slug_chars@.len() > 0 && slug_chars@.last() == '-'),
                forall|k: int|
                    0 <= k < slug_chars@.len() ==> is_lower_slug_char(#[trigger] slug_chars@[k]),
                forall|k: int| 0 <= k < lower@.len() ==> !is_ascii_upper(#[trigger] lower@[k]),
        {
            let c = lower[j];
            let ghost t = base + lower@.take(j as int);
            assert((base + lower@.take(j + 1)).drop_last() =~= t);
            assert((base + lower@.take(j + 1)).last() == c);
            if is_ascii_alphanumeric(c) {
                slug_chars.push(c);
                previous_dash = false;
            } else if !previous_dash {
                slug_chars.push('-');
                previous_dash = true;
            }
        }
        assert(base + lower@.take(lower.len() as int) =~= base + lower@);
    }
    assert(name@.take(chars.len() as int) =~= name@);
    let ghost collapsed = slug_chars@;
    proof {
        lemma_collapse_shape(lowercase_each(name@));
        if is_lower_slug(name@) {
            lemma_collapse_fixed(name@);
            assert(collapsed == name@);
        }
    }
    let len = slug_chars.len();
    let mut start: usize = 0;
    while start < len && slug_chars[start] == '-'
        invariant
            start <= len,
            len == slug_chars.len(),
            forall|i: int| 0 <= i < start ==> slug_chars@[i] == '-',
        decreases len - start,
    {
        start = start + 1;
    }
    let mut end: usize = len;
    while end > start && slug_chars[end - 1] == '-'
        invariant
            start <= end <= len,
            len == slug_chars.len(),
            forall|i: int| end <= i < len ==> slug_chars@[i] == '-',
        decreases end,
    {
        end = end - 1;
    }
    proof {
        lemma_trim_leading(collapsed, start as int);
        let lead = collapsed.skip(start as int);
        lemma_trim_trailing(lead, end - start);
        assert(lead.take(end - start) =~= collapsed.subrange(start as int, end as int));
    }
    let mut out: Vec<char> = Vec::new();
    let mut k: usize = start;
    while k < end
        invariant
            start <= k <= end <= len,
            len == slug_chars.len(),
            out@ == slug_chars@.subrange(start as int, k as int),
        decreases end - k,
    {
        out.push(slug_chars[k]);
        assert(slug_chars@.subrange(start as int, k + 1) =~= out@);
        k = k + 1;
    }
    proof {
        if is_lower_slug(name@) {
            assert(start == 0);
            assert(end == len);
            assert(out@ =~= name@);
        }
    }
    if out.len() == 0 {
        let fallback: Vec<char> = vec!['s', 'k', 'i', 'n'];
        assert(fallback@ =~= fallback_slug());
        assert(is_lower_slug(fallback@));
        string_of(&fallback)
    } else {
        proof {
            assert(out@.len() > 0);
            assert(out@[0] == collapsed[start as int]);
            assert(out@.last() == collapsed[end - 1]);
            assert forall|i: int| 0 <= i < out@.len() - 1 implies !(#[trigger] out@[i] == '-'
                && out@[i + 1] == '-') by {
                assert(out@[i] == collapsed[start + i]);
                assert(out@[i + 1] == collapsed[start + i + 1]);
            }
            assert forall|i: int| 0 <= i < out@.len() implies is_ascii_alnum(#[trigger] out@[i])
                || out@[i] == '-' by {
                assert(out@[i] == collapsed[start + i]);
            }
            assert forall|i: int| 0 <= i < out@.len() implies is_lower_slug_char(#[trigger] out@[i]) by {
                assert(out@[i] == collapsed[start + i]);
            }
        }
        string_of(&out)
    }
}

// ---------------------------------------------------------------------------
// Laws of slugs and display names.
// ---------------------------------------------------------------------------
/// Lowercasing char by char distributes over concatenation.
proof fn lemma_lowercase_each_concat(a: Seq<char>, b: Seq<char>)
    ensures
        lowercase_each(a + b) == lowercase_each(a) + lowercase_each(b),
    decreases b.len(),
{
    if b.len() == 0 {
        assert(a + b =~= a);
        assert(lowercase_each(a) + lowercase_each(b) =~= lowercase_each(a));
    } else {
        lemma_lowercase_each_concat(a, b.drop_last());
        assert((a + b).drop_last() =~= a + b.drop_last());
        assert((a + b).last() == b.last());
        assert(lowercase_each(a + b) =~= lowercase_each(a) + lowercase_each(b.drop_last())
            + char_lowercase(b.last()));
    }
}

/// Lowercasing char by char keeps ASCII lowercase letters, digits, `-` and spaces.
proof fn lemma_lowercase_each_fixed(x: Seq<char>)
    requires
        forall|i: int| 0 <= i < x.len() ==> is_lower_slug_char(#[trigger] x[i]) || x[i] == ' ',
    ensures
        lowercase_each(x) == x,
    decreases x.len(),
{
    if x.len() > 0 {
        let p = x.drop_last();
        assert forall|i: int| 0 <= i < p.len() implies is_lower_slug_char(#[trigger] p[i]) || p[i]
            == ' ' by {
            assert(p[i] == x[i]);
        }
        lemma_lowercase_each_fixed(p);
        lemma_ascii_case_roundtrip(x.last());
        assert(char_lowercase(x.last()) == seq![x.last()]);
        assert(p + seq![x.last()] =~= x);
    }
}

/// Lowercasing char by char maps ASCII letters to their lowercase forms, so
/// it gives the same chars for a string and its ASCII-cased forms.
proof fn lemma_lowercase_each_ascii_case(x: Seq<char>)
    ensures
        lowercase_each(ascii_upper_seq(x)) == lowercase_each(x),
        lowercase_each(ascii_lower_seq(x)) == lowercase_each(x),
    decreases x.len(),
{
    if x.len() > 0 {
        let p = x.drop_last();
        let c = x.last();
        lemma_lowercase_each_ascii_case(p);
        assert(ascii_upper_seq(x).drop_last() =~= ascii_upper_seq(p));
        assert(ascii_lower_seq(x).drop_last() =~= ascii_lower_seq(p));
        assert(ascii_upper_seq(x).last() == ascii_upper(c));
        assert(ascii_lower_seq(x).last() == ascii_lower(c));
        lemma_ascii_case_roundtrip(c);
        lemma_ascii_case_roundtrip(ascii_lower(c));
        assert(char_lowercase(ascii_upper(c)) == char_lowercase(c));
        assert(char_lowercase(ascii_lower(c)) == char_lowercase(c));
    }
}

/// The slug of a name does not depend on the ASCII case of its letters.
pub proof fn lemma_slug_ignores_ascii_case(name: Seq<char>)
    ensures
        slug(ascii_upper_seq(name)) == slug(name),
        slug(ascii_lower_seq(name)) == slug(name),
{
    lemma_lowercase_each_ascii_case(name);
}

/// A lowercase slug is its own slug.  Since every result of `slugify` is a
/// lowercase slug (see its contract), slugifying a slug gives it back.
pub proof fn lemma_lower_slug_is_fixed(s: Seq<char>)
    requires
        is_lower_slug(s),
    ensures
        slug(s) == s,
{
    lemma_lowercase_each_fixed(s);
    lemma_collapse_fixed(s);
    assert(trim_leading_dashes(s) == s);
    assert(trim_trailing_dashes(s) == s);
}

/// Turning the dashes of a slug into spaces and collapsing again gives the slug.
proof fn lemma_collapse_spaces(s: Seq<char>)
    requires
        forall|i: int| 0 <= i < s.len() ==> is_lower_slug_char(#[trigger] s[i]),
        forall|i: int| 0 <= i < s.len() - 1 ==> !(#[trigger] s[i] == '-' && s[i + 1] == '-'),
        s.len() > 0 ==> s[0] != '-',
    ensures
        collapse_to_dashes(s.map_values(|c: char| sep_to_space(c))) == s,
    decreases s.len(),
{
    if s.len() > 0 {
        let p = s.drop_last();
        assert forall|i: int| 0 <= i < p.len() - 1 implies !(#[trigger] p[i] == '-' && p[i + 1]
            == '-') by {
            assert(p[i] == s[i] && p[i + 1] == s[i + 1]);
        }
        assert forall|i: int| 0 <= i < p.len() implies is_lower_slug_char(#[trigger] p[i]) by {
            assert(p[i] == s[i]);
        }
        lemma_collapse_spaces(p);
        let m = s.map_values(|c: char| sep_to_space(c));
        assert(m.drop_last() =~= p.map_values(|c: char| sep_to_space(c)));
        assert(m.last() == sep_to_space(s.last()));
        if s.last() == '-' {
            assert(s.len() >= 2);
            assert(p.last() == s[s.len() - 2]);
        }
        assert(p.push(s.last()) =~= s);
    }
}

/// The number of words never drops when a char is added.
proof fn lemma_words_grow(s: Seq<char>)
    requires
        s.len() > 0,
        !char_is_whitespace(s[0]),
    ensures
        words(s).len() > 0,
    decreases s.len(),
{
    if s.len() > 1 {
        let p = s.drop_last();
        assert(p[0] == s[0]);
        lemma_words_grow(p);
    }
}

/// A string of lowercase letters, digits and single inner spaces that does
/// not start with a space: its words joined by spaces give it back, without
/// a trailing space; and its words are made of letters and digits.
proof fn lemma_join_words_of_words(m: Seq<char>)
    requires
        forall|i: int| 0 <= i < m.len() ==> (is_ascii_lower(#[trigger] m[i]) || is_ascii_digit(m[i])
            || m[i] == ' '),
        forall|i: int| 0 <= i < m.len() - 1 ==> !(#[trigger] m[i] == ' ' && m[i + 1] == ' '),
        m.len() > 0 ==> m[0] != ' ',
    ensures
        join_words(words(m)) == if m.len() > 0 && m.last() == ' ' {
            m.drop_last()
        } else {
            m
        },
        forall|j: int, k: int|
            0 <= j < words(m).len() && 0 <= k < words(m)[j].len() ==> is_ascii_lower(
                #[trigger] words(m)[j][k],
            ) || is_ascii_digit(words(m)[j][k]),
    decreases m.len(),
{
    if m.len() > 0 {
        let p = m.drop_last();
        let c = m.last();
        assert forall|i: int| 0 <= i < p.len() implies (is_ascii_lower(#[trigger] p[i])
            || is_ascii_digit(p[i]) || p[i] == ' ') by {
            assert(p[i] == m[i]);
        }
        assert forall|i: int| 0 <= i < p.len() - 1 implies !(#[trigger] p[i] == ' ' && p[i + 1]
            == ' ') by {
            assert(p[i] == m[i] && p[i + 1] == m[i + 1]);
        }
        lemma_join_words_of_words(p);
        lemma_words_nonempty(p);
        let prev = words(p);
        let ws = words(m);
        if char_is_whitespace(c) {
            assert(c == ' ');
            if p.len() > 0 {
                assert(p.last() == m[m.len() - 2]);
            }
        } else if m.len() >= 2 && !char_is_whitespace(m[m.len() - 2]) {
            assert(p.last() == m[m.len() - 2]);
            assert(prev.len() > 0);
            let n = prev.len() - 1;
            assert(ws == prev.update(n, prev.last().push(c)));
            if prev.len() == 1 {
                assert(join_words(ws) == ws[0]);
            } else {
                assert(ws.drop_last() =~= prev.drop_last());
            }
            assert(p.push(c) =~= m);
            assert forall|j: int, k: int| 0 <= j < ws.len() && 0 <= k < ws[j].len() implies
                is_ascii_lower(#[trigger] ws[j][k]) || is_ascii_digit(ws[j][k]) by {
                if j < n {
                    assert(ws[j] == prev[j]);
                } else if k < prev[n].len() {
                    assert(ws[j][k] == prev[n][k]);
                }
            }
        } else {
            assert(ws == prev.push(seq![c]));
            if m.len() >= 2 {
                assert(p.last() == m[m.len() - 2]);
                assert(p.last() == ' ');
                assert(p[0] == m[0]);
                lemma_words_grow(p);
                assert(ws.drop_last() =~= prev);
                assert(p.drop_last().push(' ') =~= p);
                assert(p.drop_last() + seq![' '] + seq![c] =~= m);
            } else {
                assert(p.len() == 0);
                assert(join_words(ws) == ws[0]);
                assert(seq![c] =~= m);
            }
            assert forall|j: int, k: int| 0 <= j < ws.len() && 0 <= k < ws[j].len() implies
                is_ascii_lower(#[trigger] ws[j][k]) || is_ascii_digit(ws[j][k]) by {
                if j < prev.len() {
                    assert(ws[j] == prev[j]);
                }
            }
        }
    }
}

/// Lowercasing char by char undoes capitalizing a word of letters and digits.
proof fn lemma_lowercase_capitalized(w: Seq<char>)
    requires
        w.len() > 0,
        forall|k: int| 0 <= k < w.len() ==> is_ascii_lower(#[trigger] w[k]) || is_ascii_digit(w[k]),
    ensures
        lowercase_each(capitalize(w)) == w,
{
    let first = w[0];
    let rest = w.drop_first();
    lemma_ascii_case_roundtrip(first);
    assert(capitalize(w) == seq![ascii_upper(first)] + rest);
    lemma_lowercase_each_concat(seq![ascii_upper(first)], rest);
    assert(seq![ascii_upper(first)].drop_last() =~= Seq::<char>::empty());
    let u = ascii_upper(first);
    assert(is_ascii(u));
    assert(char_lowercase(u) == seq![ascii_lower(u)]);
    assert(ascii_lower(u) == first);
    assert(lowercase_each(Seq::<char>::empty()) == Seq::<char>::empty());
    assert(lowercase_each(seq![u]) == lowercase_each(Seq::<char>::empty()) + char_lowercase(u));
    assert(lowercase_each(seq![u]) =~= seq![first]);
    assert forall|i: int| 0 <= i < rest.len() implies is_lower_slug_char(#[trigger] rest[i])
        || rest[i] == ' ' by {
        assert(rest[i] == w[i + 1]);
    }
    lemma_lowercase_each_fixed(rest);
    assert(seq![first] + rest =~= w);
}

/// Lowercasing char by char a join of capitalized words of letters and
/// digits gives the join of the words.
proof fn lemma_lowercase_join(ws: Seq<Seq<char>>)
    requires
        forall|j: int| 0 <= j < ws.len() ==> (#[trigger] ws[j]).len() > 0,
        forall|j: int, k: int|
            0 <= j < ws.len() && 0 <= k < ws[j].len() ==> is_ascii_lower(#[trigger] ws[j][k])
                || is_ascii_digit(ws[j][k]),
    ensures
        lowercase_each(join_words(ws.map_values(|w: Seq<char>| capitalize(w)))) == join_words(ws),
    decreases ws.len(),
{
    let f = |w: Seq<char>| capitalize(w);
    let m = ws.map_values(f);
    if ws.len() == 1 {
        assert(join_words(m) == m[0]);
        lemma_lowercase_capitalized(ws[0]);
    } else if ws.len() > 1 {
        let init = ws.drop_last();
        lemma_lowercase_join(init);
        assert(m.drop_last() =~= init.map_values(f));
        let last = ws.last();
        assert forall|k: int| 0 <= k < last.len() implies is_ascii_lower(#[trigger] last[k])
            || is_ascii_digit(last[k]) by {
            assert(last[k] == ws[ws.len() - 1][k]);
        }
        lemma_lowercase_capitalized(last);
        let a = join_words(m.drop_last());
        lemma_lowercase_each_concat(a + seq![' '], capitalize(last));
        lemma_lowercase_each_concat(a, seq![' ']);
        lemma_lowercase_each_fixed(seq![' ']);
        assert(join_words(m) == a + seq![' '] + capitalize(last));
    }
}

/// A lowercase slug survives the trip to a display name and back: the slug
/// of the display name of a slug is the slug itself.
pub proof fn lemma_slug_of_display_name(s: Seq<char>)
    requires
        is_lower_slug(s),
    ensures
        slug(display_name(s)) == s,
{
    let m = s.map_values(|c: char| sep_to_space(c));
    assert forall|i: int| 0 <= i < m.len() implies (is_ascii_lower(#[trigger] m[i])
        || is_ascii_digit(m[i]) || m[i] == ' ') by {
        assert(is_lower_slug_char(s[i]));
    }
    assert forall|i: int| 0 <= i < m.len() - 1 implies !(#[trigger] m[i] == ' ' && m[i + 1] == ' ') by {
        assert(m[i] == sep_to_space(s[i]) && m[i + 1] == sep_to_space(s[i + 1]));
        assert(is_lower_slug_char(s[i]) && is_lower_slug_char(s[i + 1]));
    }
    assert(m[0] == sep_to_space(s[0]));
    assert(m.last() == sep_to_space(s.last()));
    lemma_join_words_of_words(m);
    lemma_words_nonempty(m);
    lemma_lowercase_join(words(m));
    assert(lowercase_each(display_name(s)) == m);
    lemma_collapse_spaces(s);
    assert(trim_leading_dashes(s) == s);
    assert(trim_trailing_dashes(s) == s);
}

// ---------------------------------------------------------------------------
// Free ids in the skins folder.
// ---------------------------------------------------------------------------
/// The `n`-th id tried for `base`: the base itself first, then `base-2`,
/// `base-3`, ...
pub open spec fn candidate(base: Seq<char>, n: nat) -> Seq<char> {
    if n < 2 {
        base
    } else {
        base + seq!['-'] + decimal(n)
    }
}

/// The names of `v`'s strings.
pub open spec fn names_of(v: Seq<String>) -> Seq<Seq<char>> {
    v.map_values(|s: String| s@)
}

/// `id` is the first of the candidates for `base` (counting from 1) of
/// which `taken` does not hold.
pub open spec fn is_first_free(base: Seq<char>, taken: spec_fn(Seq<char>) -> bool, id: Seq<char>) -> bool {
    exists|n: nat|
        #![trigger candidate(base, n)]
        {
            &&& n >= 1
            &&& id == candidate(base, n)
            &&& !taken(id)
            &&& forall|j: nat| 1 <= j < n ==> taken(#[trigger] candidate(base, j))
        }
}

/// Different counters give different candidates.
pub proof fn lemma_candidate_injective(base: Seq<char>, i: nat, j: nat)
    requires
        i >= 1,
        j >= 1,
        candidate(base, i) == candidate(base, j),
    ensures
        i == j,
{
    crate::text::lemma_decimal_digits(i);
    crate::text::lemma_decimal_digits(j);
    if i >= 2 && j >= 2 {
        let k: int = base.len() as int + 1;
        assert(candidate(base, i).skip(k) =~= decimal(i));
        assert(candidate(base, j).skip(k) =~= decimal(j));
        lemma_decimal_injective(i, j);
    } else if i >= 2 {
        assert(candidate(base, i).len() > base.len());
    } else if j >= 2 {
        assert(candidate(base, j).len() > base.len());
    }
}

/// There is only one first free candidate: the choice is determined by the
/// base and by which candidates are taken.
pub proof fn lemma_first_free_unique(
    base: Seq<char>,
    taken: spec_fn(Seq<char>) -> bool,
    a: Seq<char>,
    b: Seq<char>,
)
    requires
        is_first_free(base, taken, a),
        is_first_free(base, taken, b),
    ensures
        a == b,
{
    let n = choose|n: nat|
        #![trigger candidate(base, n)]
        {
            &&& n >= 1
            &&& a == candidate(base, n)
            &&& !taken(a)
            &&& forall|j: nat| 1 <= j < n ==> taken(#[trigger] candidate(base, j))
        };
    let m = choose|m: nat|
        #![trigger candidate(base, m)]
        {
            &&& m >= 1
            &&& b == candidate(base, m)
            &&& !taken(b)
            &&& forall|j: nat| 1 <= j < m ==> taken(#[trigger] candidate(base, j))
        };
    if n < m {
        assert(taken(candidate(base, n)));
    } else if m < n {
        assert(taken(candidate(base, m)));
    }
}

/// A search that tries the candidates from the first on and stops at the
/// first one that is not taken finds the first free candidate, and that is
/// the only first free candidate.
pub proof fn lemma_search_finds_first_free(base: Seq<char>, taken: spec_fn(Seq<char>) -> bool, n: nat)
    requires
        n >= 1,
        !taken(candidate(base, n)),
        forall|j: nat| 1 <= j < n ==> taken(#[trigger] candidate(base, j)),
    ensures
        is_first_free(base, taken, candidate(base, n)),
        forall|id: Seq<char>| is_first_free(base, taken, id) ==> id == candidate(base, n),
{
    assert(is_first_free(base, taken, candidate(base, n)));
    assert forall|id: Seq<char>| is_first_free(base, taken, id) implies id == candidate(base, n) by {
        lemma_first_free_unique(base, taken, id, candidate(base, n));
    }
}

/// Once the first free candidate is taken (a skin was imported there), the
/// next search finds the following candidate if that one is free: importing
/// the same folder twice gives `base`, then `base-2`, and so on.
pub proof fn lemma_next_search_after_import(base: Seq<char>, taken: spec_fn(Seq<char>) -> bool, n: nat)
    requires
        n >= 1,
        is_first_free(base, taken, candidate(base, n)),
        !taken(candidate(base, n + 1)),
    ensures
        is_first_free(
            base,
            |s: Seq<char>| taken(s) || s == candidate(base, n),
            candidate(base, n + 1),
        ),
{
    let taken2 = |s: Seq<char>| taken(s) || s == candidate(base, n);
    let m = choose|m: nat|
        #![trigger candidate(base, m)]
        {
            &&& m >= 1
            &&& candidate(base, n) == candidate(base, m)
            &&& !taken(candidate(base, n))
            &&& forall|j: nat| 1 <= j < m ==> taken(#[trigger] candidate(base, j))
        };
    lemma_candidate_injective(base, n, m);
    if candidate(base, n + 1) == candidate(base, n) {
        lemma_candidate_injective(base, n + 1, n);
    }
    assert(!taken2(candidate(base, n + 1)));
    assert forall|j: nat| 1 <= j < n + 1 implies taken2(#[trigger] candidate(base, j)) by {
        if j < n {
            assert(taken(candidate(base, j)));
        }
    }
    lemma_search_finds_first_free(base, taken2, n + 1);
}

/// Whether `name` is one of the names in `taken`.
pub fn contains_name(taken: &Vec<String>, name: &String) -> (r: bool)
    ensures
        r == names_of(taken@).contains(name@),
{
    for i in 0..taken.len()
        invariant
            forall|k: int| 0 <= k < i ==> taken@[k]@ != name@,
    {
        if taken[i] == *name {
            assert(names_of(taken@)[i as int] == name@);
            return true;
        }
    }
    assert forall|k: int| 0 <= k < names_of(taken@).len() implies names_of(taken@)[k] != name@ by {
        assert(names_of(taken@)[k] == taken@[k]@);
    }
    false
}

/// A slug-shaped name is a plain path component.
pub proof fn lemma_slug_is_plain(s: Seq<char>)
    requires
        is_slug_shaped(s),
    ensures
        is_plain_name(s),
{
}

/// The candidates for a plain base are plain too.
pub proof fn lemma_candidate_plain(base: Seq<char>, n: nat)
    requires
        is_plain_name(base),
    ensures
        is_plain_name(candidate(base, n)),
{
    if n >= 2 {
        crate::text::lemma_decimal_digits(n);
        let c = candidate(base, n);
        let d = decimal(n);
        let k = base.len() as int;
        assert forall|i: int| 0 <= i < c.len() implies is_ascii_alnum(#[trigger] c[i]) || c[i]
            == '-' by {
            if i > k {
                assert(c[i] == d[i - k - 1]);
            } else if i < k {
                assert(c[i] == base[i]);
            }
        }
    }
}

/// A candidate for a slug-shaped base is slug-shaped too.
pub proof fn lemma_candidate_slug_shaped(base: Seq<char>, n: nat)
    requires
        is_slug_shaped(base),
    ensures
        is_slug_shaped(candidate(base, n)),
{
    if n >= 2 {
        crate::text::lemma_decimal_digits(n);
        let c = candidate(base, n);
        let d = decimal(n);
        let k = base.len() as int;
        assert(c == base + seq!['-'] + d);
        assert forall|i: int| 0 <= i < c.len() implies is_ascii_alnum(#[trigger] c[i]) || c[i]
            == '-' by {
            if i > k {
                assert(c[i] == d[i - k - 1]);
            } else if i < k {
                assert(c[i] == base[i]);
            }
        }
        assert(c.last() == d.last());
        assert(c[0] == base[0]);
        assert forall|i: int| 0 <= i < c.len() - 1 implies !(#[trigger] c[i] == '-' && c[i + 1]
            == '-') by {
            if i < k - 1 {
                assert(c[i] == base[i] && c[i + 1] == base[i + 1]);
            } else if i == k - 1 {
                assert(c[i] == base.last());
            } else if i == k {
                assert(c[i + 1] == d[0]);
            } else {
                assert(c[i] == d[i - k - 1]);
            }
        }
    }
}

/// The id tried at `attempt`: `base_id` for the first attempt, then
/// `base_id-2`, `base_id-3`, ...
pub fn candidate_id(base_id: &str, attempt: u64) -> (r: String)
    ensures
        r@ == candidate(base_id@, attempt as nat),
{
    let mut chars = chars_of(base_id);
    if attempt >= 2 {
        chars.push('-');
        assert(chars@ =~= base_id@ + seq!['-']);
        push_decimal(&mut chars, attempt as u128);
    }
    string_of(&chars)
}

/// The folder tried at `attempt`: the candidate id of `attempt` in
/// `base_dir`.  For a plain base id, its file name is that candidate id.
pub fn destination_candidate(base_dir: &str, base_id: &str, attempt: u64) -> (r: String)
    ensures
        r@ == path_join(base_dir@, candidate(base_id@, attempt as nat)),
        is_plain_name(base_id@) ==> path_file_name(r@) == Some(candidate(base_id@, attempt as nat)),
{
    let id = candidate_id(base_id, attempt);
    proof {
        if is_plain_name(base_id@) {
            lemma_candidate_plain(base_id@, attempt as nat);
        }
    }
    join(base_dir, id.as_str())
}

/// The outcome of one step of the search for a free skin folder.
#[derive(Debug, Clone, PartialEq, Eq)]
pub enum DestinationSearch {
    /// The folder tried is free: the new skin's id and folder.
    Free { skin_id: String, destination: String },
    /// The folder tried exists: the attempt to make next.
    Taken { next_attempt: u64 },
}

/// One step of the search for a free folder for `base_id` in `base_dir`,
/// which tries `base_id`, `base_id-2`, `base_id-3`, ... in turn: if the
/// folder of `attempt` (see `destination_candidate`) does not exist, it is
/// the destination and its candidate id the new skin's id; else the next
/// attempt follows.  Run from the first attempt with the file system's
/// answers, the steps end at the first free candidate
/// (`lemma_search_finds_first_free`).
pub fn unique_destination(base_dir: &str, base_id: &str, attempt: u64, candidate_exists: bool) -> (r:
    DestinationSearch)
    requires
        attempt < u64::MAX,
    ensures
        !candidate_exists ==> (r matches DestinationSearch::Free { skin_id, destination } && {
            &&& skin_id@ == candidate(base_id@, attempt as nat)
            &&& destination@ == path_join(base_dir@, skin_id@)
            &&& is_plain_name(base_id@) ==> path_file_name(destination@) == Some(skin_id@)
            &&& is_slug_shaped(base_id@) ==> is_slug_shaped(skin_id@)
        }),
        candidate_exists ==> r == (DestinationSearch::Taken { next_attempt: (attempt + 1) as u64 }),
{
    if candidate_exists {
        DestinationSearch::Taken { next_attempt: attempt + 1 }
    } else {
        let skin_id = candidate_id(base_id, attempt);
        proof {
            if is_plain_name(base_id@) {
                lemma_candidate_plain(base_id@, attempt as nat);
            }
            if is_slug_shaped(base_id@) {
                lemma_candidate_slug_shaped(base_id@, attempt as nat);
            }
        }
        let destination = join(base_dir, skin_id.as_str());
        DestinationSearch::Free { skin_id, destination }
    }
}

} // verus!
