//! Text utilities shared by the parser, the indexer and the rankers:
//! whitespace splitting, case folding and stop-word removal.

use vstd::prelude::*;

verus! {

/// Unicode alphabetic property of a character, as `char::is_alphabetic`
/// decides it.
pub uninterp spec fn is_alpha(c: char) -> bool;

/// Unicode whitespace property of a character, as `char::is_whitespace`
/// decides it.
pub uninterp spec fn is_space(c: char) -> bool;

/// Relies on `char::is_alphabetic`: the Unicode alphabetic property is a
/// function of the character alone.
pub assume_specification[ char::is_alphabetic ](c: char) -> (r: bool)
    ensures
        r == is_alpha(c),
;

/// Relies on `char::is_whitespace`: the Unicode whitespace property is a
/// function of the character alone.
pub assume_specification[ char::is_whitespace ](c: char) -> (r: bool)
    ensures
        r == is_space(c),
;

/// The Unicode lowercase form of a character sequence, as
/// `str::to_lowercase` computes it.
pub uninterp spec fn lower_of(s: Seq<char>) -> Seq<char>;

/// Relies on `str::to_lowercase`: the result depends on the characters
/// alone, and each character maps to at least one character, so a non-empty
/// string stays non-empty.
#[verifier::external_body]
pub fn lowercase(s: &str) -> (r: String)
    ensures
        r@ == lower_of(s@),
        s@.len() > 0 ==> r@.len() > 0,
{
    s.to_lowercase()
}

/// Relies on `String::push`: appends one character at the end.
#[verifier::external_body]
pub fn push_char(s: &mut String, c: char)
    ensures
        final(s)@ == old(s)@.push(c),
{
    s.push(c)
}

/// String equality on the character sequences.
pub fn str_eq(a: &str, b: &str) -> (r: bool)
    ensures
        r == (a@ == b@),
{
    let sa = String::from_str(a);
    let sb = String::from_str(b);
    sa == sb
}

/// Equality of two string vectors on their character sequences.
pub fn vec_str_eq(a: &Vec<String>, b: &Vec<String>) -> (r: bool)
    ensures
        r == (a.deep_view() == b.deep_view()),
{
    if a.len() != b.len() {
        proof {
            assert(a.deep_view().len() == a@.len());
            assert(b.deep_view().len() == b@.len());
        }
        return false;
    }
    let mut i: usize = 0;
    while i < a.len()
        invariant
            a@.len() == b@.len(),
            i <= a@.len(),
            forall|k: int| 0 <= k < i ==> a.deep_view()[k] == b.deep_view()[k],
        decreases a@.len() - i,
    {
        if !(a[i] == b[i]) {
            proof {
                assert(a.deep_view()[i as int] != b.deep_view()[i as int]);
            }
            return false;
        }
        i = i + 1;
    }
    proof {
        assert(a.deep_view() =~= b.deep_view());
    }
    true
}

/// Clones a string vector, keeping the character sequences.
pub fn clone_strings(v: &Vec<String>) -> (r: Vec<String>)
    ensures
        r.deep_view() == v.deep_view(),
{
    let mut out: Vec<String> = Vec::new();
    let mut i: usize = 0;
    while i < v.len()
        invariant
            i <= v@.len(),
            out.deep_view() =~= v.deep_view().take(i as int),
        decreases v@.len() - i,
    {
        let ghost prev = out.deep_view();
        out.push(v[i].clone());
        proof {
            assert(out.deep_view() =~= prev.push(v@[i as int]@));
            assert(out.deep_view() =~= v.deep_view().take(i + 1));
        }
        i = i + 1;
    }
    proof {
        assert(v.deep_view().take(v@.len() as int) =~= v.deep_view());
    }
    out
}

/// Whether a string vector holds a string with the given characters.
pub fn contains_str(v: &Vec<String>, s: &str) -> (r: bool)
    ensures
        r == v.deep_view().contains(s@),
{
    let mut i: usize = 0;
    while i < v.len()
        invariant
            i <= v@.len(),
            forall|k: int| 0 <= k < i ==> v.deep_view()[k] != s@,
        decreases v@.len() - i,
    {
        if str_eq(v[i].as_str(), s) {
            proof {
                assert(v.deep_view()[i as int] == s@);
            }
            return true;
        }
        i = i + 1;
    }
    proof {
        assert(forall|k: int| 0 <= k < v.deep_view().len() ==> v.deep_view()[k] != s@);
    }
    false
}

/// Keeps the non-empty strings, in order.
pub fn keep_nonempty(v: Vec<String>) -> (r: Vec<String>)
    ensures
        r.deep_view() == v.deep_view().filter(|t: Seq<char>| t.len() > 0),
{
    let ghost keep = |t: Seq<char>| t.len() > 0;
    let mut out: Vec<String> = Vec::new();
    let mut i: usize = 0;
    proof {
        assert(v.deep_view().take(0) =~= Seq::<Seq<char>>::empty());
        reveal(Seq::filter);
        assert(out.deep_view() =~= v.deep_view().take(0).filter(keep));
    }
    while i < v.len()
        invariant
            i <= v@.len(),
            keep == (|t: Seq<char>| t.len() > 0),
            out.deep_view() == v.deep_view().take(i as int).filter(keep),
        decreases v@.len() - i,
    {
        let ghost m = v.deep_view().take(i as int);
        proof {
            assert(v.deep_view().take(i + 1) =~= m.push(v.deep_view()[i as int]));
            let p = m.push(v.deep_view()[i as int]);
            assert(p.drop_last() =~= m);
            reveal(Seq::filter);
            assert(p.filter(keep) == if keep(p.last()) {
                m.filter(keep).push(p.last())
            } else {
                m.filter(keep)
            });
        }
        if v[i].as_str().unicode_len() > 0 {
            let ghost prev = out.deep_view();
            out.push(v[i].clone());
            proof {
                assert(out.deep_view() =~= prev.push(v.deep_view()[i as int]));
            }
        }
        i = i + 1;
    }
    proof {
        assert(v.deep_view().take(v@.len() as int) =~= v.deep_view());
    }
    out
}

/// A singleton word sequence, or nothing for an empty word in progress.
pub open spec fn emit(cur: Seq<char>) -> Seq<Seq<char>> {
    if cur.len() == 0 {
        Seq::empty()
    } else {
        seq![cur]
    }
}

/// Splits `s` into maximal non-empty words at whitespace, with `cur` the
/// word already in progress. With `alpha_only`, characters that are neither
/// alphabetic nor whitespace are removed without ending the word.
pub open spec fn split_from(s: Seq<char>, cur: Seq<char>, alpha_only: bool) -> Seq<Seq<char>>
    decreases s.len(),
{
    if s.len() == 0 {
        emit(cur)
    } else if is_space(s[0]) {
        emit(cur) + split_from(s.drop_first(), Seq::empty(), alpha_only)
    } else if !alpha_only || is_alpha(s[0]) {
        split_from(s.drop_first(), cur.push(s[0]), alpha_only)
    } else {
        split_from(s.drop_first(), cur, alpha_only)
    }
}

/// The words of `s`: split at whitespace, every other character kept.
pub open spec fn spec_words(s: Seq<char>) -> Seq<Seq<char>> {
    split_from(s, Seq::empty(), false)
}

/// The alphabetic words of `s`: non-alphabetic, non-whitespace characters
/// are dropped first, then the rest is split at whitespace.
pub open spec fn spec_alpha_words(s: Seq<char>) -> Seq<Seq<char>> {
    split_from(s, Seq::empty(), true)
}

/// Every word that splitting emits is non-empty, whatever word was in
/// progress.
pub proof fn lemma_split_words_nonempty(s: Seq<char>, cur: Seq<char>, alpha_only: bool)
    ensures
        forall|i: int|
            0 <= i < split_from(s, cur, alpha_only).len() ==> (#[trigger] split_from(
                s,
                cur,
                alpha_only,
            )[i]).len() > 0,
    decreases s.len(),
{
    if s.len() == 0 {
        assert forall|i: int|
            0 <= i < split_from(s, cur, alpha_only).len() implies (#[trigger] split_from(
            s,
            cur,
            alpha_only,
        )[i]).len() > 0 by {
            assert(split_from(s, cur, alpha_only) == emit(cur));
            assert(cur.len() > 0);
            assert(split_from(s, cur, alpha_only)[i] == cur);
        }
    } else if is_space(s[0]) {
        lemma_split_words_nonempty(s.drop_first(), Seq::empty(), alpha_only);
        assert forall|i: int|
            0 <= i < split_from(s, cur, alpha_only).len() implies (#[trigger] split_from(
            s,
            cur,
            alpha_only,
        )[i]).len() > 0 by {
            let rest = split_from(s.drop_first(), Seq::<char>::empty(), alpha_only);
            assert(split_from(s, cur, alpha_only) == emit(cur) + rest);
            if i < emit(cur).len() {
                assert(cur.len() > 0);
                assert(split_from(s, cur, alpha_only)[i] == cur);
            } else {
                assert(split_from(s, cur, alpha_only)[i] == rest[i - emit(cur).len()]);
            }
        }
    } else if !alpha_only || is_alpha(s[0]) {
        lemma_split_words_nonempty(s.drop_first(), cur.push(s[0]), alpha_only);
        assert(split_from(s, cur, alpha_only) == split_from(
            s.drop_first(),
            cur.push(s[0]),
            alpha_only,
        ));
    } else {
        lemma_split_words_nonempty(s.drop_first(), cur, alpha_only);
        assert(split_from(s, cur, alpha_only) == split_from(s.drop_first(), cur, alpha_only));
    }
}

proof fn lemma_skip_step(s: Seq<char>, i: int)
    requires
        0 <= i < s.len(),
    ensures
        s.skip(i).len() == s.len() - i,
        s.skip(i)[0] == s[i],
        s.skip(i).drop_first() =~= s.skip(i + 1),
{
}

/// Splits `s` into its maximal non-empty words at whitespace; with
/// `alpha_only`, non-alphabetic non-whitespace characters are dropped first.
pub fn split_words(s: &str, alpha_only: bool) -> (r: Vec<String>)
    ensures
        r.deep_view() == split_from(s@, Seq::<char>::empty(), alpha_only),
{
    let n = s.unicode_len();
    let mut out: Vec<String> = Vec::new();
    let mut cur: String = String::new();
    let mut i: usize = 0;
    proof {
        assert(s@.skip(0) =~= s@);
        assert(out.deep_view() =~= Seq::<Seq<char>>::empty());
        assert(Seq::<Seq<char>>::empty() + split_from(s@, Seq::<char>::empty(), alpha_only)
            =~= split_from(s@, Seq::<char>::empty(), alpha_only));
    }
    while i < n
        invariant
            n == s@.len(),
            i <= n,
            out.deep_view() + split_from(s@.skip(i as int), cur@, alpha_only) == split_from(
                s@,
                Seq::<char>::empty(),
                alpha_only,
            ),
        decreases n - i,
    {
        proof {
            lemma_skip_step(s@, i as int);
        }
        let c = s.get_char(i);
        if c.is_whitespace() {
            if cur.as_str().unicode_len() > 0 {
                let ghost prev = out.deep_view();
                out.push(cur);
                proof {
                    assert(out.deep_view() =~= prev.push(cur@));
                    assert(prev.push(cur@) =~= prev + emit(cur@));
                    assert(out.deep_view() + split_from(s@.skip(i + 1), Seq::<char>::empty(), alpha_only)
                        =~= prev + (emit(cur@) + split_from(s@.skip(i + 1), Seq::<char>::empty(), alpha_only)));
                }
                cur = String::new();
            } else {
                proof {
                    assert(emit(cur@) + split_from(s@.skip(i + 1), Seq::<char>::empty(), alpha_only)
                        =~= split_from(s@.skip(i + 1), Seq::<char>::empty(), alpha_only));
                }
                cur = String::new();
            }
        } else if !alpha_only || c.is_alphabetic() {
            push_char(&mut cur, c);
        } else {
            // character dropped
        }
        i = i + 1;
    }
    proof {
        assert(s@.skip(n as int) =~= Seq::<char>::empty());
    }
    if cur.as_str().unicode_len() > 0 {
        let ghost prev = out.deep_view();
        out.push(cur);
        proof {
            assert(out.deep_view() =~= prev.push(cur@));
            assert(prev.push(cur@) =~= prev + emit(cur@));
        }
    } else {
        proof {
            assert(out.deep_view() + emit(cur@) =~= out.deep_view());
        }
    }
    out
}

/// First half of the fixed stop-word list.
pub open spec fn is_stop_a(w: Seq<char>) -> bool {
    ||| w == "a"@
    ||| w == "your"@
    ||| w == "an"@
    ||| w == "the"@
    ||| w == "and"@
    ||| w == "but"@
    ||| w == "in"@
    ||| w == "on"@
    ||| w == "of"@
    ||| w == "with"@
    ||| w == "is"@
    ||| w == "was"@
    ||| w == "by"@
    ||| w == "at"@
    ||| w == "to"@
    ||| w == "from"@
    ||| w == "which"@
    ||| w == "you"@
    ||| w == "it"@
    ||| w == "this"@
    ||| w == "that"@
    ||| w == "or"@
    ||| w == "be"@
    ||| w == "are"@
    ||| w == "been"@
    ||| w == "were"@
    ||| w == "would"@
    ||| w == "will"@
    ||| w == "shall"@
    ||| w == "should"@
    ||| w == "can"@
    ||| w == "could"@
    ||| w == "has"@
    ||| w == "have"@
    ||| w == "had"@
    ||| w == "not"@
    ||| w == "if"@
    ||| w == "else"@
    ||| w == "then"@
}

/// Second half of the fixed stop-word list.
pub open spec fn is_stop_b(w: Seq<char>) -> bool {
    ||| w == "for"@
    ||| w == "so"@
    ||| w == "no"@
    ||| w == "nor"@
    ||| w == "up"@
    ||| w == "out"@
    ||| w == "over"@
    ||| w == "under"@
    ||| w == "again"@
    ||| w == "further"@
    ||| w == "once"@
    ||| w == "here"@
    ||| w == "there"@
    ||| w == "when"@
    ||| w == "where"@
    ||| w == "why"@
    ||| w == "how"@
    ||| w == "all"@
    ||| w == "any"@
    ||| w == "both"@
    ||| w == "each"@
    ||| w == "few"@
    ||| w == "more"@
    ||| w == "most"@
    ||| w == "other"@
    ||| w == "some"@
    ||| w == "such"@
    ||| w == "only"@
    ||| w == "own"@
    ||| w == "same"@
    ||| w == "than"@
    ||| w == "too"@
    ||| w == "very"@
    ||| w == "s"@
    ||| w == "t"@
    ||| w == "don"@
    ||| w == "just"@
    ||| w == "now"@
    ||| w == "we"@
}

/// Membership in the fixed stop-word list.
pub open spec fn is_stop(w: Seq<char>) -> bool {
    is_stop_a(w) || is_stop_b(w)
}

fn is_stop_word_a(w: &str) -> (r: bool)
    ensures
        r == is_stop_a(w@),
{
    str_eq(w, "a") || str_eq(w, "your") || str_eq(w, "an") || str_eq(w, "the") || str_eq(w, "and")
        || str_eq(w, "but") || str_eq(w, "in") || str_eq(w, "on") || str_eq(w, "of") || str_eq(
        w,
        "with",
    ) || str_eq(w, "is") || str_eq(w, "was") || str_eq(w, "by") || str_eq(w, "at") || str_eq(
        w,
        "to",
    ) || str_eq(w, "from") || str_eq(w, "which") || str_eq(w, "you") || str_eq(w, "it") || str_eq(
        w,
        "this",
    ) || str_eq(w, "that") || str_eq(w, "or") || str_eq(w, "be") || str_eq(w, "are") || str_eq(
        w,
        "been",
    ) || str_eq(w, "were") || str_eq(w, "would") || str_eq(w, "will") || str_eq(w, "shall")
        || str_eq(w, "should") || str_eq(w, "can") || str_eq(w, "could") || str_eq(w, "has")
        || str_eq(w, "have") || str_eq(w, "had") || str_eq(w, "not") || str_eq(w, "if") || str_eq(
        w,
        "else",
    ) || str_eq(w, "then")
}

fn is_stop_word_b(w: &str) -> (r: bool)
    ensures
        r == is_stop_b(w@),
{
    str_eq(w, "for") || str_eq(w, "so") || str_eq(w, "no") || str_eq(w, "nor") || str_eq(w, "up")
        || str_eq(w, "out") || str_eq(w, "over") || str_eq(w, "under") || str_eq(w, "again")
        || str_eq(w, "further") || str_eq(w, "once") || str_eq(w, "here") || str_eq(w, "there")
        || str_eq(w, "when") || str_eq(w, "where") || str_eq(w, "why") || str_eq(w, "how")
        || str_eq(w, "all") || str_eq(w, "any") || str_eq(w, "both") || str_eq(w, "each")
        || str_eq(w, "few") || str_eq(w, "more") || str_eq(w, "most") || str_eq(w, "other")
        || str_eq(w, "some") || str_eq(w, "such") || str_eq(w, "only") || str_eq(w, "own")
        || str_eq(w, "same") || str_eq(w, "than") || str_eq(w, "too") || str_eq(w, "very")
        || str_eq(w, "s") || str_eq(w, "t") || str_eq(w, "don") || str_eq(w, "just") || str_eq(
        w,
        "now",
    ) || str_eq(w, "we")
}

/// Decides membership in the fixed stop-word list.
pub fn is_stop_word(w: &str) -> (r: bool)
    ensures
        r == is_stop(w@),
{
    is_stop_word_a(w) || is_stop_word_b(w)
}

/// The term sequence of one content string: alphabetic words, lowercased,
/// with stop words removed.
pub open spec fn spec_tokens(s: Seq<char>) -> Seq<Seq<char>> {
    spec_alpha_words(s).map_values(|w: Seq<char>| lower_of(w)).filter(
        |w: Seq<char>| !is_stop(w),
    )
}

/// Tokenises one content string: keeps alphabetic and whitespace characters,
/// splits at whitespace, lowercases each word and removes stop words. Every
/// token is non-empty.
#[verifier::loop_isolation(false)]
pub fn tokenise(content: &str) -> (r: Vec<String>)
    ensures
        r.deep_view() == spec_tokens(content@),
        forall|k: int| 0 <= k < r.deep_view().len() ==> (#[trigger] r.deep_view()[k]).len() > 0,
{
    let words = split_words(content, true);
    let ghost ws = words.deep_view();
    proof {
        lemma_split_words_nonempty(content@, Seq::empty(), true);
    }
    let ghost low = |w: Seq<char>| lower_of(w);
    let ghost keep = |w: Seq<char>| !is_stop(w);
    let mut out: Vec<String> = Vec::new();
    let mut j: usize = 0;
    proof {
        assert(ws.take(0) =~= Seq::<Seq<char>>::empty());
        assert(ws.take(0).map_values(low) =~= Seq::<Seq<char>>::empty());
        reveal(Seq::filter);
        assert(out.deep_view() =~= ws.take(0).map_values(low).filter(keep));
    }
    while j < words.len()
        invariant
            j <= words.len(),
            ws == words.deep_view(),
            low == (|w: Seq<char>| lower_of(w)),
            keep == (|w: Seq<char>| !is_stop(w)),
            out.deep_view() == ws.take(j as int).map_values(low).filter(keep),
            forall|k: int|
                0 <= k < out.deep_view().len() ==> (#[trigger] out.deep_view()[k]).len() > 0,
        decreases words.len() - j,
    {
        let lw = lowercase(words[j].as_str());
        let ghost m = ws.take(j as int).map_values(low);
        proof {
            assert(ws.take(j + 1) =~= ws.take(j as int).push(ws[j as int]));
            assert(ws.take(j + 1).map_values(low) =~= m.push(low(ws[j as int])));
            assert(ws[j as int] == words[j as int]@);
            let p = m.push(low(ws[j as int]));
            assert(p.drop_last() =~= m);
            assert(p.last() == low(ws[j as int]));
            reveal(Seq::filter);
            assert(p.filter(keep) == if keep(p.last()) {
                m.filter(keep).push(p.last())
            } else {
                m.filter(keep)
            });
        }
        if !is_stop_word(lw.as_str()) {
            let ghost prev = out.deep_view();
            proof {
                assert(ws == split_from(content@, Seq::<char>::empty(), true));
                assert(split_from(content@, Seq::<char>::empty(), true)[j as int].len() > 0);
                assert(ws[j as int] == words@[j as int]@);
                assert(lw@.len() > 0);
            }
            out.push(lw);
            proof {
                assert(out.deep_view() =~= prev.push(lw@));
            }
        }
        j = j + 1;
    }
    proof {
        assert(ws.take(words.len() as int) =~= ws);
    }
    out
}

} // verus!
