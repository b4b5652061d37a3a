//! The identify stage: matching items to recordings.
//!
//! Identification tries an acoustic fingerprint lookup first and falls
//! back to metadata search; a found recording is then materialized into
//! the entity graph. The network calls happen outside; this module holds
//! the decisions: how titles are cleaned for searching, which queries to
//! try and in what order, which candidate is taken, and exactly what the
//! store holds after materialization.
//!
//! Title cleaning strips parenthesized remaster and edition markers —
//! a four-digit year with `remaster` or `remastered` in either order,
//! a bit-depth or plain `studio master`, the `deluxe`, `expanded`, and
//! `anniversary` editions, and the `bonus track version` — without
//! regard to case, together with the blank run before the parenthesis;
//! musically significant markers such as a remix or a live take are
//! kept.

use vstd::prelude::*;

use crate::error::Error;
use crate::ids::{ArtistId, ExpressionId, ManifestationId, WorkId};
use crate::musicbrainz::{MbRecording, MbRelation, MbWorkDetail};
use crate::store::{has_item, has_manifestation, CatalogStore};
use crate::text::{
    all_digits, chars_of, lower_seq, lower_vec, spec_is_digit, spec_is_space, string_from_chars,
    trim, trim_spec,
};

verus! {

/// A non-empty run of whitespace.
pub open spec fn ws_seg(s: Seq<char>) -> bool {
    s.len() > 0 && forall|i: int| 0 <= i < s.len() ==> spec_is_space(#[trigger] s[i])
}

/// `l` is `w1`, a blank run, then `w2`.
pub open spec fn word_pair(l: Seq<char>, w1: Seq<char>, w2: Seq<char>) -> bool {
    exists|j: int|
        w1.len() < j && j + w2.len() == l.len() && l.subrange(0, w1.len() as int) == w1 && ws_seg(
            #[trigger] l.subrange(w1.len() as int, j),
        ) && l.subrange(j, l.len() as int) == w2
}

/// `l` is `w1`, a blank run, `w2`, a blank run, then `w3`.
pub open spec fn word_triple(l: Seq<char>, w1: Seq<char>, w2: Seq<char>, w3: Seq<char>) -> bool {
    exists|j: int, k: int|
        w1.len() < j && j + w2.len() < k && k + w3.len() == l.len() && l.subrange(
            0,
            w1.len() as int,
        ) == w1 && ws_seg(#[trigger] l.subrange(w1.len() as int, j)) && l.subrange(
            j,
            j + w2.len(),
        ) == w2 && ws_seg(#[trigger] l.subrange(j + w2.len(), k)) && l.subrange(k, l.len() as int)
            == w3
}

/// `l` is a four-digit year, a blank run, then `remaster` or
/// `remastered`.
pub open spec fn year_remaster(l: Seq<char>) -> bool {
    exists|j: int|
        4 < j <= l.len() && all_digits(l.subrange(0, 4)) && l.len() >= 4 && ws_seg(
            #[trigger] l.subrange(4, j),
        ) && (l.subrange(j, l.len() as int) == "remaster"@ || l.subrange(j, l.len() as int)
            == "remastered"@)
}

/// `l` is `remaster` or `remastered`, a blank run, then a four-digit
/// year.
pub open spec fn remaster_year(l: Seq<char>) -> bool {
    exists|j: int|
        0 < j && j + 4 < l.len() && (l.subrange(0, j) == "remaster"@ || l.subrange(0, j)
            == "remastered"@) && ws_seg(#[trigger] l.subrange(j, l.len() - 4)) && all_digits(
            l.subrange(l.len() - 4, l.len() as int),
        )
}

/// `l` is one or more digits, `-bit`, a blank run, `studio`, a blank
/// run, then `master`.
pub open spec fn bit_studio_master(l: Seq<char>) -> bool {
    exists|a: int, b: int, k: int|
        0 < a && a + 4 < b && b + 6 < k && k + 6 == l.len() && all_digits(l.subrange(0, a))
            && l.subrange(a, a + 4) == "-bit"@ && ws_seg(#[trigger] l.subrange(a + 4, b))
            && l.subrange(b, b + 6) == "studio"@ && ws_seg(#[trigger] l.subrange(b + 6, k))
            && l.subrange(k, l.len() as int) == "master"@
}

/// Whether a parenthesized body, lowercased, is a remaster or edition
/// marker that title cleaning strips.
pub open spec fn strippable_body(b: Seq<char>) -> bool {
    let l = lower_seq(b);
    ||| year_remaster(l)
    ||| remaster_year(l)
    ||| bit_studio_master(l)
    ||| word_pair(l, "studio"@, "master"@)
    ||| word_pair(l, "deluxe"@, "edition"@)
    ||| word_pair(l, "expanded"@, "edition"@)
    ||| word_pair(l, "anniversary"@, "edition"@)
    ||| word_triple(l, "bonus"@, "track"@, "version"@)
}

/// The end of the blank run starting at `i`: the first index at or
/// after `i` holding a non-blank, or the length.
pub open spec fn skip_ws(l: Seq<char>, i: int) -> int
    decreases l.len() - i,
{
    if 0 <= i < l.len() && spec_is_space(l[i]) {
        skip_ws(l, i + 1)
    } else {
        i
    }
}

proof fn lemma_skip_ws(l: Seq<char>, i: int)
    requires
        0 <= i <= l.len(),
    ensures
        i <= skip_ws(l, i) <= l.len(),
        forall|m: int| i <= m < skip_ws(l, i) ==> spec_is_space(#[trigger] l[m]),
        skip_ws(l, i) < l.len() ==> !spec_is_space(l[skip_ws(l, i)]),
    decreases l.len() - i,
{
    if 0 <= i < l.len() && spec_is_space(l[i]) {
        lemma_skip_ws(l, i + 1);
    }
}

/// Walk past blanks.
fn skip_ws_exec(l: &Vec<char>, i: usize) -> (r: usize)
    requires
        i <= l@.len(),
    ensures
        r as int == skip_ws(l@, i as int),
        i <= r <= l@.len(),
{
    let mut j = i;
    while j < l.len() && crate::text::is_space(l[j])
        invariant
            i <= j <= l@.len(),
            skip_ws(l@, i as int) == skip_ws(l@, j as int),
        decreases l@.len() - j,
    {
        j += 1;
    }
    j
}

/// Whether `l` holds `w` starting at `i`.
fn has_word_at(l: &Vec<char>, i: usize, w: &Vec<char>) -> (r: bool)
    requires
        i <= l@.len(),
    ensures
        r == (i + w@.len() <= l@.len() && l@.subrange(i as int, i + w@.len()) == w@),
{
    let ln = l.len();
    if w.len() > ln - i {
        proof {
            assert(!(i + w@.len() <= l@.len()));
        }
        return false;
    }
    let mut k: usize = 0;
    while k < w.len()
        invariant
            ln == l@.len(),
            i + w@.len() <= ln,
            k <= w@.len(),
            forall|m: int| 0 <= m < k ==> l@[i + m] == w@[m],
        decreases w@.len() - k,
    {
        if l[i + k] != w[k] {
            proof {
                assert(l@.subrange(i as int, i + w@.len())[k as int] == l@[i + k]);
            }
            return false;
        }
        k += 1;
    }
    proof {
        assert(l@.subrange(i as int, i + w@.len()) =~= w@);
    }
    true
}

/// Decide [`word_pair`]: `w2` must not begin with a blank.
fn word_pair_exec(l: &Vec<char>, w1: &Vec<char>, w2: &Vec<char>) -> (r: bool)
    requires
        w2@.len() > 0,
        !spec_is_space(w2@[0]),
    ensures
        r == word_pair(l@, w1@, w2@),
{
    if !has_word_at(l, 0, w1) {
        return false;
    }
    let sp = skip_ws_exec(l, w1.len());
    proof {
        lemma_skip_ws(l@, w1@.len() as int);
    }
    if sp == w1.len() {
        proof {
            assert forall|j: int|
                w1@.len() < j && j + w2@.len() == l@.len() implies !(ws_seg(
                l@.subrange(w1@.len() as int, j),
            )) by {
                if ws_seg(l@.subrange(w1@.len() as int, j)) {
                    assert(spec_is_space(l@.subrange(w1@.len() as int, j)[0]));
                    assert(spec_is_space(l@[w1@.len() as int]));
                    assert(skip_ws(l@, w1@.len() as int) > w1@.len());
                }
            }
        }
        return false;
    }
    let hit = l.len() - sp == w2.len() && has_word_at(l, sp, w2);
    proof {
        if hit {
            assert(ws_seg(l@.subrange(w1@.len() as int, sp as int))) by {
                assert forall|m: int|
                    0 <= m < sp - w1@.len() implies spec_is_space(
                    #[trigger] l@.subrange(w1@.len() as int, sp as int)[m],
                ) by {
                    assert(l@.subrange(w1@.len() as int, sp as int)[m] == l@[w1@.len() + m]);
                }
            }
            assert(word_pair(l@, w1@, w2@));
        } else {
            assert forall|j: int|
                w1@.len() < j && j + w2@.len() == l@.len() && ws_seg(
                    l@.subrange(w1@.len() as int, j),
                ) implies !(l@.subrange(j, l@.len() as int) == w2@) by {
                if l@.subrange(j, l@.len() as int) == w2@ {
                    if j > sp {
                        assert(spec_is_space(l@.subrange(w1@.len() as int, j)[sp - w1@.len()]));
                        assert(spec_is_space(l@[sp as int]));
                        assert(false);
                    } else if j < sp {
                        assert(spec_is_space(l@[j]));
                        assert(l@.subrange(j, l@.len() as int)[0] == l@[j]);
                        assert(!spec_is_space(w2@[0]));
                        assert(false);
                    } else {
                        assert(sp + w2@.len() == l@.len());
                        assert(l@.subrange(sp as int, l@.len() as int) == w2@);
                        assert(has_word_at_post(l@, sp as int, w2@));
                        assert(false);
                    }
                }
            }
        }
    }
    hit
}

/// `l` holds `w` at `i`, phrased over sequences.
pub open spec fn has_word_at_post(l: Seq<char>, i: int, w: Seq<char>) -> bool {
    i + w.len() <= l.len() && l.subrange(i, i + w.len()) == w
}

/// Decide [`word_triple`]: `w2` and `w3` must not begin with a blank.
fn word_triple_exec(l: &Vec<char>, w1: &Vec<char>, w2: &Vec<char>, w3: &Vec<char>) -> (r: bool)
    requires
        w2@.len() > 0,
        !spec_is_space(w2@[0]),
        w3@.len() > 0,
        !spec_is_space(w3@[0]),
    ensures
        r == word_triple(l@, w1@, w2@, w3@),
{
    if !has_word_at(l, 0, w1) {
        return false;
    }
    let sp = skip_ws_exec(l, w1.len());
    proof {
        lemma_skip_ws(l@, w1@.len() as int);
    }
    if sp == w1.len() {
        proof {
            assert forall|j: int| w1@.len() < j && j <= l@.len() implies !ws_seg(
                #[trigger] l@.subrange(w1@.len() as int, j),
            ) by {
                if ws_seg(l@.subrange(w1@.len() as int, j)) {
                    assert(spec_is_space(l@.subrange(w1@.len() as int, j)[0]));
                    assert(spec_is_space(l@[w1@.len() as int]));
                }
            }
        }
        return false;
    }
    if !has_word_at(l, sp, w2) {
        proof {
            assert forall|j: int|
                w1@.len() < j && j + w2@.len() <= l@.len() && ws_seg(
                    #[trigger] l@.subrange(w1@.len() as int, j),
                ) implies !(l@.subrange(j, j + w2@.len()) == w2@) by {
                if l@.subrange(j, j + w2@.len()) == w2@ {
                    if j > sp {
                        assert(spec_is_space(l@.subrange(w1@.len() as int, j)[sp - w1@.len()]));
                        assert(spec_is_space(l@[sp as int]));
                    } else if j < sp {
                        assert(spec_is_space(l@[j]));
                        assert(l@.subrange(j, j + w2@.len())[0] == l@[j]);
                    } else {
                        assert(l@.subrange(sp as int, sp + w2@.len()) == w2@);
                        assert(has_word_at_post(l@, sp as int, w2@));
                    }
                }
            }
        }
        return false;
    }
    let ln = l.len();
    proof {
        assert(sp + w2@.len() <= ln as int);
    }
    let sp2 = skip_ws_exec(l, sp + w2.len());
    proof {
        lemma_skip_ws(l@, sp + w2@.len());
    }
    if sp2 == sp + w2.len() {
        proof {
            assert forall|j: int, k: int|
                #![trigger l@.subrange(w1@.len() as int, j), l@.subrange(j + w2@.len(), k)]
                w1@.len() < j && j + w2@.len() < k && k + w3@.len() == l@.len() && ws_seg(
                    l@.subrange(w1@.len() as int, j),
                ) && l@.subrange(j, j + w2@.len()) == w2@ && l@.subrange(k, l@.len() as int) == w3@
                implies !(ws_seg(l@.subrange(j + w2@.len(), k))) by {
                if ws_seg(l@.subrange(j + w2@.len(), k)) {
                    if j > sp {
                        assert(spec_is_space(l@.subrange(w1@.len() as int, j)[sp - w1@.len()]));
                        assert(spec_is_space(l@[sp as int]));
                    } else if j < sp {
                        assert(spec_is_space(l@[j]));
                        assert(l@.subrange(j, j + w2@.len())[0] == l@[j]);
                    } else {
                        assert(spec_is_space(l@.subrange(j + w2@.len(), k)[0]));
                        assert(spec_is_space(l@[sp + w2@.len()]));
                        assert(skip_ws(l@, sp + w2@.len()) > sp + w2@.len());
                    }
                }
            }
        }
        return false;
    }
    let hit = l.len() - sp2 == w3.len() && has_word_at(l, sp2, w3);
    proof {
        if hit {
            assert(ws_seg(l@.subrange(w1@.len() as int, sp as int))) by {
                assert forall|m: int|
                    0 <= m < sp - w1@.len() implies spec_is_space(
                    #[trigger] l@.subrange(w1@.len() as int, sp as int)[m],
                ) by {
                    assert(l@.subrange(w1@.len() as int, sp as int)[m] == l@[w1@.len() + m]);
                }
            }
            assert(ws_seg(l@.subrange(sp + w2@.len(), sp2 as int))) by {
                assert forall|m: int|
                    0 <= m < sp2 - (sp + w2@.len()) implies spec_is_space(
                    #[trigger] l@.subrange(sp + w2@.len(), sp2 as int)[m],
                ) by {
                    assert(l@.subrange(sp + w2@.len(), sp2 as int)[m] == l@[sp + w2@.len() + m]);
                }
            }
            assert(word_triple(l@, w1@, w2@, w3@));
        } else {
            assert forall|j: int, k: int|
                #![trigger l@.subrange(w1@.len() as int, j), l@.subrange(j + w2@.len(), k)]
                w1@.len() < j && j + w2@.len() < k && k + w3@.len() == l@.len() && ws_seg(
                    l@.subrange(w1@.len() as int, j),
                ) && l@.subrange(j, j + w2@.len()) == w2@ && ws_seg(l@.subrange(j + w2@.len(), k))
                implies !(l@.subrange(k, l@.len() as int) == w3@) by {
                if l@.subrange(k, l@.len() as int) == w3@ {
                    if j > sp {
                        assert(spec_is_space(l@.subrange(w1@.len() as int, j)[sp - w1@.len()]));
                        assert(spec_is_space(l@[sp as int]));
                        assert(false);
                    } else if j < sp {
                        assert(spec_is_space(l@[j]));
                        assert(l@.subrange(j, j + w2@.len())[0] == l@[j]);
                        assert(false);
                    } else {
                        if k > sp2 {
                            assert(spec_is_space(
                                l@.subrange(j + w2@.len(), k)[sp2 - (sp + w2@.len())],
                            ));
                            assert(spec_is_space(l@[sp2 as int]));
                            assert(false);
                        } else if k < sp2 {
                            assert(spec_is_space(l@[k]));
                            assert(l@.subrange(k, l@.len() as int)[0] == l@[k]);
                            assert(false);
                        } else {
                            assert(sp2 + w3@.len() == l@.len());
                            assert(l@.subrange(sp2 as int, l@.len() as int) == w3@);
                            assert(has_word_at_post(l@, sp2 as int, w3@));
                            assert(false);
                        }
                    }
                }
            }
        }
    }
    hit
}

/// Decide [`year_remaster`].
#[verifier::rlimit(50)]
fn year_remaster_exec(l: &Vec<char>) -> (r: bool)
    ensures
        r == year_remaster(l@),
{
    proof {
        reveal_strlit("remaster");
        reveal_strlit("remastered");
    }
    if l.len() < 4 {
        return false;
    }
    let mut d: usize = 0;
    let mut digits_ok = true;
    while d < 4
        invariant
            l@.len() >= 4,
            d <= 4,
            digits_ok ==> forall|m: int| 0 <= m < d ==> spec_is_digit(#[trigger] l@[m]),
            !digits_ok ==> !all_digits(l@.subrange(0, 4)),
            digits_ok || d == 4,
        decreases 4 - d,
    {
        if !crate::text::is_digit(l[d]) {
            proof {
        reveal_strlit("remaster");
        reveal_strlit("remastered");
                assert(l@.subrange(0, 4)[d as int] == l@[d as int]);
            }
            digits_ok = false;
            d = 4;
        } else {
            d += 1;
        }
    }
    if !digits_ok {
        return false;
    }
    proof {
        reveal_strlit("remaster");
        reveal_strlit("remastered");
        assert(all_digits(l@.subrange(0, 4))) by {
            assert forall|m: int| 0 <= m < 4 implies spec_is_digit(
                #[trigger] l@.subrange(0, 4)[m],
            ) by {
                assert(l@.subrange(0, 4)[m] == l@[m]);
            }
        }
    }
    let sp = skip_ws_exec(l, 4);
    proof {
        reveal_strlit("remaster");
        reveal_strlit("remastered");
        lemma_skip_ws(l@, 4);
    }
    if sp == 4 {
        proof {
        reveal_strlit("remaster");
        reveal_strlit("remastered");
            assert forall|j: int| 4 < j && j <= l@.len() implies !ws_seg(
                #[trigger] l@.subrange(4, j),
            ) by {
                if ws_seg(l@.subrange(4, j)) {
                    assert(spec_is_space(l@.subrange(4, j)[0]));
                    assert(spec_is_space(l@[4]));
                }
            }
        }
        return false;
    }
    let rem8 = chars_of("remaster");
    let rem10 = chars_of("remastered");
    let tail = l.len() - sp;
    let hit = (tail == 8 && has_word_at(l, sp, &rem8)) || (tail == 10 && has_word_at(
        l,
        sp,
        &rem10,
    ));
    proof {
        reveal_strlit("remaster");
        reveal_strlit("remastered");
        if hit {
            assert(ws_seg(l@.subrange(4, sp as int))) by {
                assert forall|m: int|
                    0 <= m < sp - 4 implies spec_is_space(#[trigger] l@.subrange(4, sp as int)[m]) by {
                    assert(l@.subrange(4, sp as int)[m] == l@[4 + m]);
                }
            }
            assert(year_remaster(l@));
        } else {
            assert forall|j: int|
                4 < j <= l@.len() && ws_seg(#[trigger] l@.subrange(4, j)) implies !(l@.subrange(
                j,
                l@.len() as int,
            ) == "remaster"@ || l@.subrange(j, l@.len() as int) == "remastered"@) by {
                if l@.subrange(j, l@.len() as int) == "remaster"@ || l@.subrange(
                    j,
                    l@.len() as int,
                ) == "remastered"@ {
                    assert(!spec_is_space('r'));
                    if j > sp {
                        assert(spec_is_space(l@.subrange(4, j)[sp - 4]));
                        assert(spec_is_space(l@[sp as int]));
                        assert(false);
                    } else if j < sp {
                        assert(spec_is_space(l@[j]));
                        assert(l@.subrange(j, l@.len() as int)[0] == l@[j]);
                        assert(false);
                    } else {
                        if l@.subrange(j, l@.len() as int) == "remaster"@ {
                            assert(l@.len() - sp == 8);
                            assert(has_word_at_post(l@, sp as int, rem8@));
                        } else {
                            assert(l@.subrange(j, l@.len() as int).len() == ("remastered"@).len());
                            assert(("remastered"@).len() == 10);
                            assert(l@.len() - sp == 10);
                            assert(has_word_at_post(l@, sp as int, rem10@));
                        }
                        assert(false);
                    }
                }
            }
        }
    }
    hit
}

/// Decide [`remaster_year`].
fn remaster_year_exec(l: &Vec<char>) -> (r: bool)
    ensures
        r == remaster_year(l@),
{
    proof {
        reveal_strlit("remaster");
        reveal_strlit("remastered");
    }
    let rem8 = chars_of("remaster");
    let rem10 = chars_of("remastered");
    let j: usize = if has_word_at(l, 0, &rem10) {
        10
    } else if has_word_at(l, 0, &rem8) {
        8
    } else {
        proof {
            reveal_strlit("remaster");
            reveal_strlit("remastered");
            assert forall|j2: int| 0 < j2 && j2 + 4 < l@.len() implies !(l@.subrange(0, j2)
                == "remaster"@ || l@.subrange(0, j2) == "remastered"@) by {
                if l@.subrange(0, j2) == "remaster"@ {
                    assert(j2 == 8);
                    assert(has_word_at_post(l@, 0, rem8@));
                }
                if l@.subrange(0, j2) == "remastered"@ {
                    assert(j2 == 10);
                    assert(has_word_at_post(l@, 0, rem10@));
                }
            }
        }
        return false;
    };
    if l.len() < j + 5 {
        proof {
            reveal_strlit("remaster");
            reveal_strlit("remastered");
            assert forall|j2: int|
                0 < j2 && j2 + 4 < l@.len() && (l@.subrange(0, j2) == "remaster"@ || l@.subrange(
                    0,
                    j2,
                ) == "remastered"@) implies !ws_seg(#[trigger] l@.subrange(j2, l@.len() - 4)) by {
                if ws_seg(l@.subrange(j2, l@.len() - 4)) {
                    if l@.subrange(0, j2) == "remaster"@ {
                        assert(j2 == 8);
                        if j == 10 {
                            assert(l@.len() - 4 > 8);
                            assert(l@.subrange(j2, l@.len() - 4)[0] == l@[8]);
                            assert(l@.subrange(0, 10) == "remastered"@);
                            assert(l@[8] == "remastered"@[8]);
                            assert(!spec_is_space(l@[8]));
                            assert(false);
                        } else {
                            assert(false);
                        }
                    } else {
                        assert(j2 == 10);
                        assert(false);
                    }
                }
            }
        }
        return false;
    }
    let k = l.len() - 4;
    let sp = skip_ws_exec(l, j);
    proof {
        reveal_strlit("remaster");
        reveal_strlit("remastered");
        lemma_skip_ws(l@, j as int);
    }
    let mut digits_ok = sp >= k;
    if digits_ok {
        let mut m: usize = k;
        while m < l.len()
            invariant
                k <= m <= l@.len(),
                k == l@.len() - 4,
                digits_ok ==> forall|x: int| k <= x < m ==> spec_is_digit(#[trigger] l@[x]),
                !digits_ok ==> !all_digits(l@.subrange(k as int, l@.len() as int)),
                digits_ok || m == l@.len(),
            decreases l@.len() - m,
        {
            if !crate::text::is_digit(l[m]) {
                proof {
        reveal_strlit("remaster");
        reveal_strlit("remastered");
                    assert(l@.subrange(k as int, l@.len() as int)[m - k] == l@[m as int]);
                }
                digits_ok = false;
                m = l.len();
            } else {
                m += 1;
            }
        }
    }
    let hit = sp >= k && digits_ok;
    proof {
        reveal_strlit("remaster");
        reveal_strlit("remastered");
        if hit {
            assert(all_digits(l@.subrange(k as int, l@.len() as int))) by {
                assert forall|x: int|
                    0 <= x < 4 implies spec_is_digit(
                    #[trigger] l@.subrange(k as int, l@.len() as int)[x],
                ) by {
                    assert(l@.subrange(k as int, l@.len() as int)[x] == l@[k + x]);
                }
            }
            assert(ws_seg(l@.subrange(j as int, l@.len() - 4))) by {
                assert forall|m: int|
                    0 <= m < k - j implies spec_is_space(
                    #[trigger] l@.subrange(j as int, l@.len() - 4)[m],
                ) by {
                    assert(l@.subrange(j as int, l@.len() - 4)[m] == l@[j + m]);
                    assert(j + m < sp);
                }
            }
            assert(remaster_year(l@));
        } else {
            assert forall|j2: int|
                0 < j2 && j2 + 4 < l@.len() && (l@.subrange(0, j2) == "remaster"@ || l@.subrange(
                    0,
                    j2,
                ) == "remastered"@) && ws_seg(#[trigger] l@.subrange(j2, l@.len() - 4)) implies !(
            all_digits(l@.subrange(l@.len() - 4, l@.len() as int))) by {
                if all_digits(l@.subrange(l@.len() - 4, l@.len() as int)) {
                    if j2 > j as int {
                        assert(j2 == 10 && j == 8);
                        assert(l@.subrange(0, 10) == "remastered"@);
                        assert(has_word_at_post(l@, 0, rem10@));
                        assert(false);
                    } else if j2 < j as int {
                        assert(j2 == 8 && j == 10);
                        assert(l@[8] == "remastered"@[8]);
                        assert(!spec_is_space(l@[8]));
                        assert(spec_is_space(l@.subrange(j2, l@.len() - 4)[0]));
                        assert(spec_is_space(l@[j2]));
                        assert(false);
                    } else {
                        if sp < k {
                            assert(spec_is_space(l@.subrange(j2, l@.len() - 4)[sp - j2]));
                            assert(spec_is_space(l@[sp as int]));
                            assert(false);
                        } else {
                            assert(!all_digits(l@.subrange(k as int, l@.len() as int)));
                            assert(false);
                        }
                    }
                }
            }
        }
    }
    hit
}

/// Decide [`bit_studio_master`].
fn bit_studio_master_exec(l: &Vec<char>) -> (r: bool)
    ensures
        r == bit_studio_master(l@),
{
    proof {
        reveal_strlit("-bit");
        reveal_strlit("studio");
        reveal_strlit("master");
    }
    let bit4 = chars_of("-bit");
    let studio6 = chars_of("studio");
    let master6 = chars_of("master");
    let ln = l.len();
    let mut a: usize = 0;
    while a < ln && crate::text::is_digit(l[a])
        invariant
            ln == l@.len(),
            a <= ln,
            forall|m: int| 0 <= m < a ==> spec_is_digit(#[trigger] l@[m]),
        decreases ln - a,
    {
        a += 1;
    }
    let ghost d0 = a as int;
    proof {
        reveal_strlit("-bit");
        reveal_strlit("studio");
        reveal_strlit("master");
        assert(d0 < l@.len() ==> !spec_is_digit(l@[d0]));
        assert forall|a2: int, b: int, k: int|
            #![trigger l@.subrange(a2 + 4, b), l@.subrange(b + 6, k)]
            0 < a2 && a2 + 4 < b && b + 6 < k && k + 6 == l@.len() && all_digits(
                l@.subrange(0, a2),
            ) && l@.subrange(a2, a2 + 4) == "-bit"@ implies a2 == d0 by {
            if a2 < d0 {
                assert(spec_is_digit(l@[a2]));
                assert(l@.subrange(a2, a2 + 4)[0] == l@[a2]);
                assert(l@[a2] == '-');
                assert(!spec_is_digit('-'));
            } else if a2 > d0 {
                assert(l@.subrange(0, a2)[d0] == l@[d0]);
                assert(spec_is_digit(l@[d0]));
            }
        }
    }
    if a == 0 {
        return false;
    }
    if !has_word_at(l, a, &bit4) {
        return false;
    }
    proof {
        reveal_strlit("-bit");
        reveal_strlit("studio");
        reveal_strlit("master");
        assert(a + 4 <= l@.len());
    }
    let sp = skip_ws_exec(l, a + 4);
    proof {
        reveal_strlit("-bit");
        reveal_strlit("studio");
        reveal_strlit("master");
        lemma_skip_ws(l@, a + 4);
    }
    if sp == a + 4 {
        proof {
        reveal_strlit("-bit");
        reveal_strlit("studio");
        reveal_strlit("master");
            assert forall|b: int| a + 4 < b && b <= l@.len() implies !ws_seg(
                #[trigger] l@.subrange(a + 4, b),
            ) by {
                if ws_seg(l@.subrange(a + 4, b)) {
                    assert(spec_is_space(l@.subrange(a + 4, b)[0]));
                    assert(spec_is_space(l@[a + 4]));
                }
            }
        }
        return false;
    }
    if !has_word_at(l, sp, &studio6) {
        proof {
        reveal_strlit("-bit");
        reveal_strlit("studio");
        reveal_strlit("master");
            assert forall|b: int|
                a + 4 < b && b + 6 <= l@.len() && ws_seg(#[trigger] l@.subrange(a + 4, b)) implies
                !(l@.subrange(b, b + 6) == "studio"@) by {
                if l@.subrange(b, b + 6) == "studio"@ {
                    assert(!spec_is_space('s'));
                    if b > sp {
                        assert(spec_is_space(l@.subrange(a + 4, b)[sp - (a + 4)]));
                        assert(spec_is_space(l@[sp as int]));
                    } else if b < sp {
                        assert(spec_is_space(l@[b]));
                        assert(l@.subrange(b, b + 6)[0] == l@[b]);
                    } else {
                        assert(has_word_at_post(l@, sp as int, studio6@));
                    }
                }
            }
        }
        return false;
    }
    proof {
        reveal_strlit("-bit");
        reveal_strlit("studio");
        reveal_strlit("master");
        assert(sp + 6 <= l@.len());
    }
    let sp2 = skip_ws_exec(l, sp + 6);
    proof {
        reveal_strlit("-bit");
        reveal_strlit("studio");
        reveal_strlit("master");
        lemma_skip_ws(l@, sp + 6);
    }
    if sp2 == sp + 6 {
        proof {
        reveal_strlit("-bit");
        reveal_strlit("studio");
        reveal_strlit("master");
            assert forall|b: int, k: int|
                #![trigger l@.subrange(a + 4, b), l@.subrange(b + 6, k)]
                a + 4 < b && b + 6 < k && k <= l@.len() && ws_seg(l@.subrange(a + 4, b))
                    && l@.subrange(b, b + 6) == "studio"@ implies !ws_seg(l@.subrange(b + 6, k)) by {
                if ws_seg(l@.subrange(b + 6, k)) {
                    if b > sp {
                        assert(spec_is_space(l@.subrange(a + 4, b)[sp - (a + 4)]));
                        assert(spec_is_space(l@[sp as int]));
                    } else if b < sp {
                        assert(spec_is_space(l@[b]));
                        assert(l@.subrange(b, b + 6)[0] == l@[b]);
                        assert(!spec_is_space('s'));
                    } else {
                        assert(spec_is_space(l@.subrange(b + 6, k)[0]));
                        assert(spec_is_space(l@[sp + 6]));
                        assert(skip_ws(l@, sp + 6) > sp + 6);
                    }
                }
            }
        }
        return false;
    }
    let hit = ln - sp2 == 6 && has_word_at(l, sp2, &master6);
    proof {
        reveal_strlit("-bit");
        reveal_strlit("studio");
        reveal_strlit("master");
        if hit {
            assert(ws_seg(l@.subrange(a + 4, sp as int))) by {
                assert forall|m: int|
                    0 <= m < sp - (a + 4) implies spec_is_space(
                    #[trigger] l@.subrange(a + 4, sp as int)[m],
                ) by {
                    assert(l@.subrange(a + 4, sp as int)[m] == l@[a + 4 + m]);
                }
            }
            assert(ws_seg(l@.subrange(sp + 6, sp2 as int))) by {
                assert forall|m: int|
                    0 <= m < sp2 - (sp + 6) implies spec_is_space(
                    #[trigger] l@.subrange(sp + 6, sp2 as int)[m],
                ) by {
                    assert(l@.subrange(sp + 6, sp2 as int)[m] == l@[sp + 6 + m]);
                }
            }
            assert(all_digits(l@.subrange(0, a as int))) by {
                assert forall|m: int|
                    0 <= m < a implies spec_is_digit(#[trigger] l@.subrange(0, a as int)[m]) by {
                    assert(l@.subrange(0, a as int)[m] == l@[m]);
                }
            }
            assert(bit_studio_master(l@));
        } else {
            assert forall|a2: int, b: int, k: int|
                #![trigger l@.subrange(a2 + 4, b), l@.subrange(b + 6, k)]
                0 < a2 && a2 + 4 < b && b + 6 < k && k + 6 == l@.len() && all_digits(
                    l@.subrange(0, a2),
                ) && l@.subrange(a2, a2 + 4) == "-bit"@ && ws_seg(l@.subrange(a2 + 4, b))
                    && l@.subrange(b, b + 6) == "studio"@ && ws_seg(l@.subrange(b + 6, k)) implies
                !(l@.subrange(k, l@.len() as int) == "master"@) by {
                if l@.subrange(k, l@.len() as int) == "master"@ {
                    assert(a2 == d0);
                    assert(a2 == a as int);
                    if b > sp {
                        assert(spec_is_space(l@.subrange(a2 + 4, b)[sp - (a2 + 4)]));
                        assert(spec_is_space(l@[sp as int]));
                        assert(false);
                    } else if b < sp {
                        assert(spec_is_space(l@[b]));
                        assert(l@.subrange(b, b + 6)[0] == l@[b]);
                        assert(!spec_is_space('s'));
                        assert(false);
                    } else {
                        if k > sp2 {
                            assert(spec_is_space(l@.subrange(b + 6, k)[sp2 - (sp + 6)]));
                            assert(spec_is_space(l@[sp2 as int]));
                            assert(false);
                        } else if k < sp2 {
                            assert(spec_is_space(l@[k]));
                            assert(l@.subrange(k, l@.len() as int)[0] == l@[k]);
                            assert(!spec_is_space('m'));
                            assert(false);
                        } else {
                            assert(l@.len() - sp2 == 6);
                            assert(has_word_at_post(l@, sp2 as int, master6@));
                            assert(false);
                        }
                    }
                }
            }
        }
    }
    hit
}

/// Decide [`strippable_body`].
fn group_is_strippable(b: &Vec<char>) -> (r: bool)
    ensures
        r == strippable_body(b@),
{
    proof {
        reveal_strlit("studio");
        reveal_strlit("master");
        reveal_strlit("deluxe");
        reveal_strlit("expanded");
        reveal_strlit("anniversary");
        reveal_strlit("edition");
        reveal_strlit("bonus");
        reveal_strlit("track");
        reveal_strlit("version");
    }
    let l = lower_vec(b);
    year_remaster_exec(&l) || remaster_year_exec(&l) || bit_studio_master_exec(&l) || word_pair_exec(
        &l,
        &chars_of("studio"),
        &chars_of("master"),
    ) || word_pair_exec(&l, &chars_of("deluxe"), &chars_of("edition")) || word_pair_exec(
        &l,
        &chars_of("expanded"),
        &chars_of("edition"),
    ) || word_pair_exec(&l, &chars_of("anniversary"), &chars_of("edition")) || word_triple_exec(
        &l,
        &chars_of("bonus"),
        &chars_of("track"),
        &chars_of("version"),
    )
}

/// The first closing parenthesis at or after `i`.
pub open spec fn first_close(t: Seq<char>, i: int) -> Option<int>
    decreases t.len() - i,
{
    if i < 0 || i >= t.len() {
        None
    } else if t[i] == ')' {
        Some(i)
    } else {
        first_close(t, i + 1)
    }
}

proof fn lemma_first_close(t: Seq<char>, i: int)
    requires
        0 <= i <= t.len(),
    ensures
        match first_close(t, i) {
            Some(e) => i <= e < t.len() && t[e] == ')',
            None => true,
        },
    decreases t.len() - i,
{
    if i < t.len() && t[i] != ')' {
        lemma_first_close(t, i + 1);
    }
}

/// The strippable group at or after `i`, scanning left to right: the
/// first opening parenthesis whose body, up to the next closing
/// parenthesis, is a marker title cleaning strips. The result is the
/// opening index and the index one past the closing parenthesis.
pub open spec fn scan_groups(t: Seq<char>, i: int) -> Option<(int, int)>
    decreases t.len() - i,
{
    if i < 0 || i >= t.len() {
        None
    } else {
        let cand = if t[i] == '(' {
            match first_close(t, i + 1) {
                Some(e) => if strippable_body(t.subrange(i + 1, e)) {
                    Some((i, e + 1))
                } else {
                    None
                },
                None => None,
            }
        } else {
            None
        };
        match cand {
            Some(se) => Some(se),
            None => scan_groups(t, i + 1),
        }
    }
}

proof fn lemma_scan_groups(t: Seq<char>, i: int)
    requires
        0 <= i <= t.len(),
    ensures
        match scan_groups(t, i) {
            Some(se) => i <= se.0 && se.0 + 2 <= se.1 <= t.len(),
            None => true,
        },
    decreases t.len() - i,
{
    if 0 <= i < t.len() {
        lemma_first_close(t, i + 1);
        lemma_scan_groups(t, i + 1);
    }
}

/// The start of the blank run ending at `s`: the least index from which
/// everything up to `s` is blank.
pub open spec fn ws_run_start(t: Seq<char>, s: int) -> int
    decreases s,
{
    if 0 < s <= t.len() && spec_is_space(t[s - 1]) {
        ws_run_start(t, s - 1)
    } else {
        s
    }
}

proof fn lemma_ws_run_start(t: Seq<char>, s: int)
    requires
        0 <= s <= t.len(),
    ensures
        0 <= ws_run_start(t, s) <= s,
    decreases s,
{
    if 0 < s && spec_is_space(t[s - 1]) {
        lemma_ws_run_start(t, s - 1);
    }
}

/// Titles with every strippable parenthesized marker removed, each with
/// the blank run before it, scanning leftmost first.
pub open spec fn strip_groups(t: Seq<char>) -> Seq<char>
    decreases t.len(),
    via strip_groups_decreases
{
    match scan_groups(t, 0) {
        Some(se) => strip_groups(
            t.subrange(0, ws_run_start(t, se.0)) + t.subrange(se.1, t.len() as int),
        ),
        None => t,
    }
}

#[via_fn]
proof fn strip_groups_decreases(t: Seq<char>) {
    lemma_scan_groups(t, 0);
    match scan_groups(t, 0) {
        Some(se) => {
            lemma_ws_run_start(t, se.0);
        },
        None => {},
    }
}

/// A title as it is searched for: strippable markers removed, then
/// outer blanks trimmed.
pub open spec fn spec_clean_title(t: Seq<char>) -> Seq<char> {
    trim_spec(strip_groups(t))
}

/// Find the strippable group [`scan_groups`] describes.
fn find_strippable_group(t: &Vec<char>) -> (r: Option<(usize, usize)>)
    ensures
        match r {
            Some(se) => Some((se.0 as int, se.1 as int)) == scan_groups(t@, 0) && se.0 + 2 <= se.1
                <= t@.len(),
            None => scan_groups(t@, 0) is None,
        },
{
    let n = t.len();
    let mut i: usize = 0;
    while i < n
        invariant
            n == t@.len(),
            i <= n,
            scan_groups(t@, 0) == scan_groups(t@, i as int),
        decreases n - i,
    {
        if t[i] == '(' {
            let mut e: usize = i + 1;
            let mut close: Option<usize> = None;
            while e < n
                invariant
                    n == t@.len(),
                    i + 1 <= e <= n,
                    match close {
                        None => first_close(t@, i + 1) == first_close(t@, e as int),
                        Some(c) => c < n && first_close(t@, i + 1) == Some(c as int),
                    },
                    close is Some ==> e == n,
                decreases n - e,
            {
                if t[e] == ')' {
                    proof {
                        assert(first_close(t@, e as int) == Some(e as int));
                    }
                    close = Some(e);
                    e = n;
                } else {
                    e += 1;
                }
            }
            match close {
                Some(c) => {
                    proof {
                        lemma_first_close(t@, i + 1);
                    }
                    let mut body: Vec<char> = Vec::new();
                    let mut m: usize = i + 1;
                    proof {
                        assert(body@ =~= t@.subrange(i + 1, i + 1));
                    }
                    while m < c
                        invariant
                            n == t@.len(),
                            i + 1 <= m <= c < n,
                            body@ == t@.subrange(i + 1, m as int),
                        decreases c - m,
                    {
                        body.push(t[m]);
                        proof {
                            assert(body@ =~= t@.subrange(i + 1, m + 1));
                        }
                        m += 1;
                    }
                    if group_is_strippable(&body) {
                        proof {
                            assert(scan_groups(t@, i as int) == Some((i as int, c + 1)));
                            lemma_scan_groups(t@, i as int);
                        }
                        return Some((i, c + 1));
                    }
                    proof {
                        assert(scan_groups(t@, i as int) == scan_groups(t@, i + 1));
                    }
                },
                None => {
                    proof {
                        assert(first_close(t@, i + 1) is None) by {
                            assert(first_close(t@, i + 1) == first_close(t@, n as int));
                        }
                        assert(scan_groups(t@, i as int) == scan_groups(t@, i + 1));
                    }
                },
            }
        } else {
            proof {
                assert(scan_groups(t@, i as int) == scan_groups(t@, i + 1));
            }
        }
        i += 1;
    }
    proof {
        assert(scan_groups(t@, n as int) is None);
    }
    None
}

/// Clean a title for searching: strip the remaster and edition markers
/// and trim outer blanks. Musically significant parentheses are kept.
pub fn strip_title_suffix(title: &str) -> (r: String)
    ensures
        r@ == spec_clean_title(title@),
{
    let mut t = chars_of(title);
    let ghost orig = title@;
    loop
        invariant
            orig == title@,
            strip_groups(orig) == strip_groups(t@),
        decreases t@.len(),
    {
        let found = find_strippable_group(&t);
        match found {
            Some((s, e)) => {
                let mut a: usize = s;
                while a > 0 && crate::text::is_space(t[a - 1])
                    invariant
                        a <= s < t@.len(),
                        ws_run_start(t@, s as int) == ws_run_start(t@, a as int),
                    decreases a,
                {
                    a -= 1;
                }
                proof {
                    assert(ws_run_start(t@, a as int) == a as int);
                }
                let mut next: Vec<char> = Vec::new();
                let mut m: usize = 0;
                proof {
                    assert(next@ =~= t@.subrange(0, 0));
                }
                while m < a
                    invariant
                        a <= t@.len(),
                        m <= a,
                        next@ == t@.subrange(0, m as int),
                    decreases a - m,
                {
                    next.push(t[m]);
                    proof {
                        assert(next@ =~= t@.subrange(0, m + 1));
                    }
                    m += 1;
                }
                let mut m2: usize = e;
                while m2 < t.len()
                    invariant
                        a <= t@.len(),
                        e <= m2 <= t@.len(),
                        next@ == t@.subrange(0, a as int) + t@.subrange(e as int, m2 as int),
                    decreases t@.len() - m2,
                {
                    next.push(t[m2]);
                    proof {
                        assert(next@ =~= t@.subrange(0, a as int) + t@.subrange(e as int, m2 + 1));
                    }
                    m2 += 1;
                }
                proof {
                    assert(next@ =~= t@.subrange(0, ws_run_start(t@, s as int)) + t@.subrange(
                        e as int,
                        t@.len() as int,
                    ));
                    assert(strip_groups(t@) == strip_groups(next@));
                    assert(next@.len() < t@.len());
                }
                t = next;
            },
            None => {
                proof {
                    assert(strip_groups(t@) == t@);
                }
                let trimmed = trim(&t);
                return string_from_chars(&trimmed);
            },
        }
    }
}

/// One metadata search: a title and an optional album, both sent with
/// the artist.
#[derive(Debug, PartialEq)]
pub struct SearchQuery {
    /// The title to search for.
    pub title: String,
    /// The album to narrow by, if any.
    pub album: Option<String>,
}

/// The metadata-fallback search plan for an item: nothing without both
/// an artist and a title tag; otherwise the exact title with the album,
/// the cleaned title with the album, and the cleaned title alone, in
/// that order. The first candidate any query returns wins.
pub fn plan_search_queries(item: &crate::model::Item) -> (r: Vec<SearchQuery>)
    ensures
        item@.tag_artist is Some && item@.tag_title is Some ==> ({
            &&& r@.len() == 3
            &&& r@[0].title@ == item@.tag_title->0 && crate::model::opt_view(r@[0].album)
                == item@.tag_album
            &&& r@[1].title@ == spec_clean_title(item@.tag_title->0) && crate::model::opt_view(
                r@[1].album,
            ) == item@.tag_album
            &&& r@[2].title@ == spec_clean_title(item@.tag_title->0) && r@[2].album is None
        }),
        !(item@.tag_artist is Some && item@.tag_title is Some) ==> r@.len() == 0,
{
    let mut r: Vec<SearchQuery> = Vec::new();
    match (&item.tag_artist, &item.tag_title) {
        (Some(_), Some(title)) => {
            let cleaned = strip_title_suffix(title.as_str());
            r.push(
                SearchQuery {
                    title: title.clone(),
                    album: crate::text::clone_opt_string(&item.tag_album),
                },
            );
            r.push(
                SearchQuery {
                    title: cleaned.clone(),
                    album: crate::text::clone_opt_string(&item.tag_album),
                },
            );
            r.push(SearchQuery { title: cleaned, album: None });
        },
        _ => {},
    }
    r
}

/// The work a `performance` relation links to, when the recording has
/// one: scanning relations in order.
pub open spec fn performance_work(relations: Seq<MbRelation>) -> Option<(Seq<char>, Seq<char>)>
    decreases relations.len(),
{
    if relations.len() == 0 {
        None
    } else if relations[0].relation_type@ == "performance"@ && relations[0].work is Some {
        Some((relations[0].work->0.id@, relations[0].work->0.title@))
    } else {
        performance_work(relations.drop_first())
    }
}

/// The work identifier whose full details identification still needs:
/// the `performance` relation's work, when the store does not hold it
/// yet. The surrounding program fetches the details and hands them to
/// materialization.
pub fn work_detail_needed(store: &CatalogStore, recording: &MbRecording) -> (r: Option<String>)
    ensures
        match r {
            Some(id) => performance_work(recording.relations@) matches Some(w) && id@ == w.0
                && crate::store::find_work_by_mbid(store@.works, w.0) is None,
            None => performance_work(recording.relations@) matches Some(w)
                ==> crate::store::find_work_by_mbid(store@.works, w.0) is Some,
        },
{
    let ghost rels = recording.relations@;
    let mut i: usize = 0;
    proof {
        assert(rels.subrange(0, rels.len() as int) =~= rels);
    }
    while i < recording.relations.len()
        invariant
            rels == recording.relations@,
            i <= rels.len(),
            performance_work(rels) == performance_work(rels.subrange(i as int, rels.len() as int)),
        decreases rels.len() - i,
    {
        proof {
            let tail = rels.subrange(i as int, rels.len() as int);
            assert(tail[0] == rels[i as int]);
            assert(tail.drop_first() =~= rels.subrange(i + 1, rels.len() as int));
        }
        let rel = &recording.relations[i];
        if crate::text::str_eq(rel.relation_type.as_str(), "performance") {
            match &rel.work {
                Some(w) => {
                    proof {
                        let tail = rels.subrange(i as int, rels.len() as int);
                        assert(performance_work(rels) == Some((
                            rels[i as int].work->0.id@,
                            rels[i as int].work->0.title@,
                        )));
                    }
                    if store.get_work_by_musicbrainz_id(w.id.as_str()).is_none() {
                        return Some(w.id.clone());
                    }
                    return None;
                },
                None => {},
            }
        }
        i += 1;
    }
    proof {
        assert(rels.subrange(rels.len() as int, rels.len() as int).len() == 0);
        assert(performance_work(rels) is None);
    }
    None
}

/// Materialize a recording into the entity graph and identify the item.
///
/// Credited artists missing from the store are inserted as performers.
/// The `performance` relation's work is reused when its external id is
/// known, and otherwise inserted — with the composer (also inserted as
/// an artist when missing) and the first attribute as the key, when the
/// work's details were fetched; a recording with no work relation gets a
/// minimal work named after itself. The expression for the recording is
/// reused when its external id is known, and otherwise inserted with the
/// recording's title, the item's duration, and the full performer set.
/// The first release, if any, becomes a manifestation. Finally the item
/// is marked identified.
///
/// On success the item's record names an expression carrying the
/// recording's external id, and names a manifestation exactly when the
/// recording brought releases or one existed for its first release. A
/// failure reports the store's refusal; earlier entity writes remain.
#[verifier::rlimit(100)]
pub fn materialize_recording(
    store: &mut CatalogStore,
    item: &crate::model::Item,
    recording: &MbRecording,
    work_detail: Option<&MbWorkDetail>,
) -> (r: Result<(ExpressionId, Option<ManifestationId>), Error>)
    requires
        old(store)@.wf(),
    ensures
        final(store)@.wf(),
        match r {
            Ok(ids) => ({
                &&& exists|i: int|
                    0 <= i < final(store)@.expressions.len()
                        && (#[trigger] final(store)@.expressions[i]).id == ids.0
                        && final(store)@.expressions[i].musicbrainz_id == Some(recording.id@)
                &&& (has_item(old(store)@.items, item@.id) ==> exists|k: int|
                    0 <= k < old(store)@.items.len() && (#[trigger] old(store)@.items[k]).id
                        == item@.id && final(store)@.items == old(store)@.items.update(
                        k,
                        final(store)@.items[k],
                    ) && final(store)@.items[k].expression_id == Some(ids.0)
                        && final(store)@.items[k].manifestation_id == ids.1)
                &&& (!has_item(old(store)@.items, item@.id) ==> final(store)@.items == old(
                    store,
                )@.items)
                &&& (ids.1 is Some ==> has_manifestation(final(store)@.manifestations, ids.1->0))
            }),
            Err(e) => e is Database && final(store)@.items == old(store)@.items,
        },
{
    // Credited artists become performers; ones already known are reused.
    let mut performer_ids: Vec<ArtistId> = Vec::new();
    match &recording.artist_credit {
        Some(credits) => {
            let mut i: usize = 0;
            while i < credits.len()
                invariant
                    store@.wf(),
                    store@.items == old(store)@.items,
                    store@.expressions == old(store)@.expressions,
                decreases credits@.len() - i,
            {
                let credit = &credits[i];
                match store.get_artist_by_musicbrainz_id(credit.artist.id.as_str()) {
                    Some(existing) => {
                        performer_ids.push(existing.id);
                    },
                    None => {
                        let artist = crate::model::Artist::new(
                            credit.artist.name.as_str(),
                        ).with_musicbrainz_id(credit.artist.id.as_str()).with_role(
                            crate::model::ArtistRole::Performer,
                        );
                        let aid = artist.id;
                        match store.insert_artist(artist) {
                            Ok(()) => {
                                performer_ids.push(aid);
                            },
                            Err(e) => {
                                return Err(e);
                            },
                        }
                    },
                }
                i += 1;
            }
        },
        None => {},
    }
    // The work: the performance relation's, reused or inserted; a
    // recording without one gets a minimal work named after itself.
    let mut work_ref: Option<String> = None;
    {
        let mut i: usize = 0;
        let mut done = false;
        while i < recording.relations.len() && !done
            invariant
                store@.wf(),
                store@.items == old(store)@.items,
                store@.expressions == old(store)@.expressions,
            decreases recording.relations@.len() - i,
        {
            let rel = &recording.relations[i];
            if crate::text::str_eq(rel.relation_type.as_str(), "performance") {
                match &rel.work {
                    Some(w) => {
                        work_ref = Some(w.id.clone());
                        done = true;
                    },
                    None => {},
                }
            }
            i += 1;
        }
    }
    let work_id: WorkId = match &work_ref {
        Some(wid) => {
            match store.get_work_by_musicbrainz_id(wid.as_str()) {
                Some(w) => w.id,
                None => {
                    let mut title: &str = recording.title.as_str();
                    let mut relidx: usize = 0;
                    while relidx < recording.relations.len()
                        invariant
                            store@.wf(),
                            store@.items == old(store)@.items,
                            store@.expressions == old(store)@.expressions,
                        decreases recording.relations@.len() - relidx,
                    {
                        let rel = &recording.relations[relidx];
                        if crate::text::str_eq(rel.relation_type.as_str(), "performance") {
                            match &rel.work {
                                Some(w) => {
                                    title = w.title.as_str();
                                    relidx = recording.relations.len();
                                },
                                None => {
                                    relidx += 1;
                                },
                            }
                        } else {
                            relidx += 1;
                        }
                    }
                    let mut work = crate::model::Work::new(title).with_musicbrainz_id(
                        wid.as_str(),
                    );
                    match work_detail {
                        Some(detail) => {
                            let mut ri: usize = 0;
                            let mut composer: Option<String> = None;
                            while ri < detail.relations.len()
                                invariant
                                    store@.wf(),
                                    store@.items == old(store)@.items,
                                    store@.expressions == old(store)@.expressions,
                                decreases detail.relations@.len() - ri,
                            {
                                let rel = &detail.relations[ri];
                                if crate::text::str_eq(rel.relation_type.as_str(), "composer") {
                                    match &rel.artist {
                                        Some(a) => {
                                            composer = Some(a.name.clone());
                                            if store.get_artist_by_musicbrainz_id(
                                                a.id.as_str(),
                                            ).is_none() {
                                                let ca = crate::model::Artist::new(
                                                    a.name.as_str(),
                                                ).with_musicbrainz_id(a.id.as_str()).with_role(
                                                    crate::model::ArtistRole::Composer,
                                                );
                                                match store.insert_artist(ca) {
                                                    Ok(()) => {
                                                    },
                                                    Err(e) => {
                                                        return Err(e);
                                                    },
                                                }
                                            }
                                            ri = detail.relations.len();
                                        },
                                        None => {
                                            ri += 1;
                                        },
                                    }
                                } else {
                                    ri += 1;
                                }
                            }
                            match composer {
                                Some(c) => {
                                    work = work.with_composer(c.as_str());
                                },
                                None => {},
                            }
                            if detail.attributes.len() > 0 {
                                work = work.with_key(detail.attributes[0].as_str());
                            }
                        },
                        None => {},
                    }
                    let wid2 = work.id;
                    match store.insert_work(work) {
                        Ok(()) => wid2,
                        Err(e) => {
                            return Err(e);
                        },
                    }
                },
            }
        },
        None => {
            let work = crate::model::Work::new(recording.title.as_str());
            let wid2 = work.id;
            match store.insert_work(work) {
                Ok(()) => wid2,
                Err(e) => {
                    return Err(e);
                },
            }
        },
    };
    // The expression for the recording, reused or inserted.
    let expression_id: ExpressionId = match store.get_expression_by_musicbrainz_id(
        recording.id.as_str(),
    ) {
        Some(e) => {
            let got = e.id;
            proof {
                let i = choose|i: int|
                    0 <= i < store@.expressions.len() && (#[trigger] store@.expressions[i]) == e@
                        && store@.expressions[i].musicbrainz_id == Some(recording.id@);
                assert(store@.expressions[i].id == got);
            }
            got
        },
        None => {
            let mut expression = crate::model::Expression::new(work_id).with_title(
                recording.title.as_str(),
            ).with_musicbrainz_id(recording.id.as_str());
            match item.duration_secs {
                Some(d) => {
                    expression = expression.with_duration(d);
                },
                None => {},
            }
            let ghost e0 = expression@;
            let mut pi: usize = 0;
            while pi < performer_ids.len()
                invariant
                    store@.wf(),
                    store@.items == old(store)@.items,
                    expression@.id == e0.id,
                    expression@.musicbrainz_id == e0.musicbrainz_id,
                decreases performer_ids@.len() - pi,
            {
                expression = expression.with_performer(performer_ids[pi]);
                pi += 1;
            }
            let eid = expression.id;
            proof {
                assert(expression@.musicbrainz_id == Some(recording.id@));
            }
            match store.insert_expression(expression) {
                Ok(()) => {
                    proof {
                        let n = store@.expressions.len() - 1;
                        assert(store@.expressions[n].id == eid);
                        assert(store@.expressions[n].musicbrainz_id == Some(recording.id@));
                    }
                    eid
                },
                Err(e) => {
                    return Err(e);
                },
            }
        },
    };
    let ghost mid_store = store@;
    proof {
        assert(exists|i: int|
            0 <= i < store@.expressions.len() && (#[trigger] store@.expressions[i]).id
                == expression_id && store@.expressions[i].musicbrainz_id == Some(recording.id@));
    }
    let ghost expr_wit = choose|i: int|
        0 <= i < mid_store.expressions.len() && (#[trigger] mid_store.expressions[i]).id
            == expression_id && mid_store.expressions[i].musicbrainz_id == Some(recording.id@);
    // The first release, if any, becomes a manifestation.
    let manifestation_id: Option<ManifestationId> = match &recording.releases {
        Some(releases) => {
            if releases.len() > 0 {
                let release = &releases[0];
                match store.get_manifestation_by_musicbrainz_id(release.id.as_str()) {
                    Some(m) => {
                        let got = m.id;
                        proof {
                            let i = choose|i: int|
                                0 <= i < store@.manifestations.len() && (
                                #[trigger] store@.manifestations[i]) == m@
                                    && store@.manifestations[i].musicbrainz_id == Some(
                                    release.id@,
                                );
                            assert(store@.manifestations[i].id == got);
                            assert(has_manifestation(store@.manifestations, got));
                        }
                        Some(got)
                    },
                    None => {
                        let man = crate::model::Manifestation::new(
                            release.title.as_str(),
                        ).with_musicbrainz_id(release.id.as_str());
                        let mid = man.id;
                        match store.insert_manifestation(man) {
                            Ok(()) => {
                                proof {
                                    let n = store@.manifestations.len() - 1;
                                    assert(store@.manifestations[n].id == mid);
                                    assert(has_manifestation(store@.manifestations, mid));
                                }
                                Some(mid)
                            },
                            Err(e) => {
                                return Err(e);
                            },
                        }
                    },
                }
            } else {
                None
            }
        },
        None => None,
    };
    // Mark the item identified.
    proof {
        assert(store@.items =~= old(store)@.items);
    }
    let ghost pre_update = store@;
    let ghost man_wit: int = match manifestation_id {
        Some(m) => choose|i: int|
            0 <= i < pre_update.manifestations.len() && (
            #[trigger] pre_update.manifestations[i]).id == m,
        None => 0,
    };
    match store.update_item_identification(item.id, Some(expression_id), manifestation_id, None) {
        Ok(()) => {
            proof {
                assert(pre_update.items == old(store)@.items);
                if has_item(old(store)@.items, item@.id) {
                    assert(has_item(pre_update.items, item@.id));
                }
                assert(store@.expressions == pre_update.expressions);
                assert(pre_update.expressions == mid_store.expressions);
                assert(store@.expressions[expr_wit].id == expression_id
                    && store@.expressions[expr_wit].musicbrainz_id == Some(recording.id@));
                match manifestation_id {
                    Some(m) => {
                        assert(has_manifestation(pre_update.manifestations, m));
                        assert(store@.manifestations == pre_update.manifestations);
                        assert(store@.manifestations[man_wit].id == m);
                        assert(has_manifestation(store@.manifestations, m));
                    },
                    None => {},
                }
            }
            Ok((expression_id, manifestation_id))
        },
        Err(e) => Err(e),
    }
}

} // verus!
