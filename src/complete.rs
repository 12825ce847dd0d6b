//! Tag autocompletion over the known tag names, and cyclic cursor movement.
use vstd::prelude::*;
use vstd::arithmetic::div_mod::{lemma_fundamental_div_mod, lemma_fundamental_div_mod_converse};
use crate::index::{holds_name, TagEntry};
use crate::text::{
    chars_of, has_prefix, is_whitespace, is_ws, join_first, join_words, lower_of, lowercase, push_all,
    push_char, split_words, starts_with, views_of, words,
};

verus! {

/// Most suggestions offered at once.
pub const MAX_SUGGESTIONS: usize = 5;

/// The cursor `cur` moved by `delta` in a cyclic list of `len` items.
pub open spec fn cycled(cur: int, delta: int, len: int) -> int {
    (cur + delta) % len
}

/// Moves a cursor by `delta` through a list of `len` items, wrapping around both
/// ends; with no items the cursor stays.
pub fn cycle(cur: usize, delta: i32, len: usize) -> (r: usize)
    ensures
        len == 0 ==> r == cur,
        len > 0 ==> r == cycled(cur as int, delta as int, len as int),
        len > 0 ==> r < len,
{
    if len == 0 {
        return cur;
    }
    let dn: usize = if delta >= 0 {
        delta as usize
    } else {
        (-(delta as i64)) as usize
    };
    let m = dn % len;
    let c = cur % len;
    proof {
        lemma_fundamental_div_mod(dn as int, len as int);
        lemma_fundamental_div_mod(cur as int, len as int);
    }
    let r = if delta >= 0 {
        if c >= len - m {
            c - (len - m)
        } else {
            c + m
        }
    } else {
        if c >= m {
            c - m
        } else {
            c + (len - m)
        }
    };
    proof {
        let l = len as int;
        let qd = dn as int / l;
        let qc = cur as int / l;
        let x = cur as int + delta as int;
        if delta >= 0 {
            assert(dn as int == delta as int);
            if c >= len - m {
                assert(x == (qc + qd + 1) * l + r) by (nonlinear_arith)
                    requires
                        cur as int == l * qc + c,
                        dn as int == l * qd + m,
                        x == cur as int + dn as int,
                        r as int == c + m - l,
                ;
                lemma_fundamental_div_mod_converse(x, l, qc + qd + 1, r as int);
            } else {
                assert(x == (qc + qd) * l + r) by (nonlinear_arith)
                    requires
                        cur as int == l * qc + c,
                        dn as int == l * qd + m,
                        x == cur as int + dn as int,
                        r as int == c + m,
                ;
                lemma_fundamental_div_mod_converse(x, l, qc + qd, r as int);
            }
        } else {
            assert(dn as int == -(delta as int));
            if c >= m {
                assert(x == (qc - qd) * l + r) by (nonlinear_arith)
                    requires
                        cur as int == l * qc + c,
                        dn as int == l * qd + m,
                        x == cur as int - dn as int,
                        r as int == c - m,
                ;
                lemma_fundamental_div_mod_converse(x, l, qc - qd, r as int);
            } else {
                assert(x == (qc - qd - 1) * l + r) by (nonlinear_arith)
                    requires
                        cur as int == l * qc + c,
                        dn as int == l * qd + m,
                        x == cur as int - dn as int,
                        r as int == c - m + l,
                ;
                lemma_fundamental_div_mod_converse(x, l, qc - qd - 1, r as int);
            }
        }
    }
    r
}

/// The names of the tag entries `tags`.
pub open spec fn tag_names(tags: Seq<TagEntry>) -> Seq<Seq<char>> {
    tags.map_values(|t: TagEntry| t.name@)
}

/// Whether `name` is offered for the lower-cased partial word `partial` when the
/// words `entered` were completed before it.
pub open spec fn offered(name: Seq<char>, partial: Seq<char>, entered: Seq<Seq<char>>) -> bool {
    has_prefix(lower_of(name), partial) && !entered.contains(name)
}

/// The names offered, in order.
pub open spec fn candidates(names: Seq<Seq<char>>, partial: Seq<char>, entered: Seq<Seq<char>>) -> Seq<Seq<char>>
    decreases names.len(),
{
    if names.len() == 0 {
        Seq::empty()
    } else {
        let prev = candidates(names.drop_last(), partial, entered);
        if offered(names.last(), partial, entered) {
            prev.push(names.last())
        } else {
            prev
        }
    }
}

/// The first `n` items of `s`, or all of them when there are fewer.
pub open spec fn first_n<A>(s: Seq<A>, n: nat) -> Seq<A> {
    if s.len() <= n {
        s
    } else {
        s.take(n as int)
    }
}

/// Whether `input` ends in a word still being typed: it is not empty and its
/// last character is not white space.
pub open spec fn ends_open(input: Seq<char>) -> bool {
    input.len() > 0 && !is_ws(input.last())
}

/// The words of `input` already completed: all of them when the input ends in
/// white space, else all but the trailing partial word.
pub open spec fn completed_words(input: Seq<char>) -> Seq<Seq<char>> {
    if ends_open(input) {
        words(input).drop_last()
    } else {
        words(input)
    }
}

/// The suggestions for the input `input`: the trailing partial word is the
/// prefix (an input that is empty or ends in white space has an empty partial
/// and gets no suggestion); the names whose lower-cased form starts with the
/// lower-cased partial and that are not among the completed words, at most five.
pub open spec fn suggestions(names: Seq<Seq<char>>, input: Seq<char>) -> Seq<Seq<char>> {
    let ws = words(input);
    if !ends_open(input) || ws.len() == 0 {
        Seq::empty()
    } else {
        first_n(candidates(names, lower_of(ws.last()), ws.drop_last()), MAX_SUGGESTIONS as nat)
    }
}

/// The suggestions for `input` among the names of `tags`, in the order of `tags`.
pub fn suggest(tags: &Vec<TagEntry>, input: &str) -> (r: Vec<String>)
    ensures
        r@.map_values(|s: String| s@) == suggestions(tag_names(tags@), input@),
{
    let cs = chars_of(input);
    let ws = split_words(input);
    let ghost wv = words(input@);
    if cs.len() == 0 || is_whitespace(cs[cs.len() - 1]) || ws.len() == 0 {
        let r: Vec<String> = Vec::new();
        assert(r@.map_values(|s: String| s@) =~= Seq::<Seq<char>>::empty());
        return r;
    }
    let n = ws.len();
    let mut entered: Vec<String> = Vec::new();
    let mut k: usize = 0;
    while k < n - 1
        invariant
            n == ws@.len(),
            n > 0,
            n == wv.len(),
            forall|i: int| 0 <= i < ws@.len() ==> #[trigger] ws@[i]@ == wv[i],
            k <= n - 1,
            entered@.len() == k,
            forall|i: int| 0 <= i < k ==> #[trigger] entered@[i]@ == wv[i],
        decreases n - 1 - k,
    {
        entered.push(ws[k].clone());
        k = k + 1;
    }
    let lp = lowercase(ws[n - 1].as_str());
    let partial = chars_of(lp.as_str());
    let ghost names = tag_names(tags@);
    let ghost earlier = wv.drop_last();
    assert(partial@ == lower_of(wv.last()));
    let mut r: Vec<String> = Vec::new();
    let mut i: usize = 0;
    while i < tags.len()
        invariant
            i <= tags.len(),
            names == tag_names(tags@),
            partial@ == lower_of(wv.last()),
            entered@.len() == earlier.len(),
            forall|j: int| 0 <= j < earlier.len() ==> #[trigger] entered@[j]@ == earlier[j],
            r@.map_values(|s: String| s@) == first_n(candidates(names.take(i as int), partial@, earlier), MAX_SUGGESTIONS as nat),
        decreases tags.len() - i,
    {
        let name = &tags[i].name;
        let ln = lowercase(name.as_str());
        let lc = chars_of(ln.as_str());
        let pre = starts_with(&lc, &partial);
        let taken = holds_name(&entered, name);
        proof {
            assert(names.take(i + 1).drop_last() == names.take(i as int));
            assert(names.take(i + 1).last() == name@);
            assert(views_of(entered@) =~= earlier);
        }
        let ghost before = r@;
        if pre && !taken && r.len() < MAX_SUGGESTIONS {
            r.push(name.clone());
            proof {
                assert(r@.map_values(|s: String| s@) =~= before.map_values(|s: String| s@).push(name@));
            }
        }
        i = i + 1;
    }
    proof {
        assert(names.take(tags.len() as int) == names);
    }
    r
}

proof fn lemma_candidates_offered(names: Seq<Seq<char>>, partial: Seq<char>, entered: Seq<Seq<char>>)
    ensures
        forall|i: int| 0 <= i < candidates(names, partial, entered).len() ==> offered(
            #[trigger] candidates(names, partial, entered)[i],
            partial,
            entered,
        ),
    decreases names.len(),
{
    if names.len() > 0 {
        lemma_candidates_offered(names.drop_last(), partial, entered);
        let prev = candidates(names.drop_last(), partial, entered);
        let c = candidates(names, partial, entered);
        assert forall|i: int| 0 <= i < c.len() implies offered(#[trigger] c[i], partial, entered) by {
            if i < prev.len() {
                assert(c[i] == prev[i]);
            }
        }
    }
}

/// Autocompletion offers at most five names, none of them a word already completed
/// earlier in the input, and each one starts with the partial word when both are
/// lower-cased.
pub proof fn lemma_suggestions_sound(names: Seq<Seq<char>>, input: Seq<char>)
    ensures
        suggestions(names, input).len() <= MAX_SUGGESTIONS,
        !ends_open(input) ==> suggestions(names, input).len() == 0,
        forall|i: int| 0 <= i < suggestions(names, input).len() ==> !completed_words(input).contains(
            #[trigger] suggestions(names, input)[i],
        ),
        forall|i: int| 0 <= i < suggestions(names, input).len() ==> has_prefix(
            lower_of(#[trigger] suggestions(names, input)[i]),
            lower_of(words(input).last()),
        ),
{
    let ws = words(input);
    if ends_open(input) && ws.len() > 0 {
        let c = candidates(names, lower_of(ws.last()), ws.drop_last());
        lemma_candidates_offered(names, lower_of(ws.last()), ws.drop_last());
        let s = suggestions(names, input);
        assert forall|i: int| 0 <= i < s.len() implies s[i] == c[i] by {}
    }
}

/// Autocompletion sees the partial word only through its lower-cased form: two
/// inputs with the same completed words whose partials lower-case alike get the
/// same suggestions.
pub proof fn lemma_suggestions_by_lowered_partial(names: Seq<Seq<char>>, a: Seq<char>, b: Seq<char>)
    requires
        ends_open(a),
        ends_open(b),
        words(a).len() > 0,
        words(b).len() > 0,
        words(a).drop_last() == words(b).drop_last(),
        lower_of(words(a).last()) == lower_of(words(b).last()),
    ensures
        suggestions(names, a) == suggestions(names, b),
{
}

/// The buffer after accepting `suggestion`: the last word of `buffer` is replaced
/// by it, the earlier words are kept joined by single spaces, and a space follows.
pub open spec fn completed(buffer: Seq<char>, suggestion: Seq<char>) -> Seq<char> {
    let ws = words(buffer);
    let prefix = if ws.len() > 1 {
        join_words(ws.drop_last()) + seq![' ']
    } else {
        Seq::empty()
    };
    prefix + suggestion + seq![' ']
}

/// `buffer` with its last word replaced by `suggestion` and a separator appended.
pub fn complete_buffer(buffer: &str, suggestion: &String) -> (r: String)
    ensures
        r@ == completed(buffer@, suggestion@),
{
    let ws = split_words(buffer);
    let mut r = String::new();
    if ws.len() > 1 {
        r = join_first(&ws, ws.len() - 1);
        push_char(&mut r, ' ');
        proof {
            let wv = words(buffer@);
            assert(ws@.take(ws.len() - 1).map_values(|w: String| w@) =~= wv.drop_last());
        }
    }
    push_all(&mut r, suggestion.as_str());
    push_char(&mut r, ' ');
    proof {
        let wv = words(buffer@);
        if wv.len() > 1 {
            assert(r@ =~= completed(buffer@, suggestion@));
        } else {
            assert(r@ =~= completed(buffer@, suggestion@));
        }
    }
    r
}

} // verus!
