//! Lexicographic ordering, sorting, and joining of rendered lines.
//!
//! The three snapshot renderings all sort their lines before joining
//! them; the order is code-point lexicographic, which for UTF-8 text
//! coincides with byte order.

use vstd::prelude::*;

verus! {

/// The character sequences of a sequence of strings.
pub open spec fn str_views(s: Seq<String>) -> Seq<Seq<char>> {
    s.map_values(|x: String| x@)
}

/// Pushing a string pushes its characters onto the views.
pub proof fn lemma_str_views_push(s: Seq<String>, x: String)
    ensures
        str_views(s.push(x)) == str_views(s).push(x@),
{
    assert(str_views(s.push(x)) =~= str_views(s).push(x@));
}

/// The deep view of a string vector is the views of its elements.
pub proof fn lemma_deep_view_is_str_views(v: &Vec<String>)
    ensures
        v.deep_view() == str_views(v@),
{
    assert(v.deep_view() =~= str_views(v@));
}

/// Code-point lexicographic order on character sequences.
pub open spec fn lex_le(a: Seq<char>, b: Seq<char>) -> bool
    decreases a.len(),
{
    if a.len() == 0 {
        true
    } else if b.len() == 0 {
        false
    } else if a[0] == b[0] {
        lex_le(a.drop_first(), b.drop_first())
    } else {
        a[0] < b[0]
    }
}

/// The order is total.
pub proof fn lemma_lex_total(a: Seq<char>, b: Seq<char>)
    ensures
        lex_le(a, b) || lex_le(b, a),
    decreases a.len(),
{
    if a.len() > 0 && b.len() > 0 && a[0] == b[0] {
        lemma_lex_total(a.drop_first(), b.drop_first());
    }
}

/// The order is transitive.
pub proof fn lemma_lex_trans(a: Seq<char>, b: Seq<char>, c: Seq<char>)
    requires
        lex_le(a, b),
        lex_le(b, c),
    ensures
        lex_le(a, c),
    decreases a.len(),
{
    if a.len() > 0 && b.len() > 0 && c.len() > 0 && a[0] == b[0] && b[0] == c[0] {
        lemma_lex_trans(a.drop_first(), b.drop_first(), c.drop_first());
    }
}

/// Compares two strings in the lexicographic order.
pub fn str_lex_le(a: &String, b: &String) -> (r: bool)
    ensures
        r == lex_le(a@, b@),
{
    let a_str = a.as_str();
    let b_str = b.as_str();
    let an = a_str.unicode_len();
    let bn = b_str.unicode_len();
    let mut i: usize = 0;
    proof {
        assert(a@.skip(0) =~= a@);
        assert(b@.skip(0) =~= b@);
    }
    loop
        invariant
            0 <= i <= an,
            i <= bn,
            an == a@.len(),
            bn == b@.len(),
            a_str@ == a@,
            b_str@ == b@,
            lex_le(a@, b@) == lex_le(a@.skip(i as int), b@.skip(i as int)),
        decreases an - i,
    {
        if i >= an {
            proof {
                assert(a@.skip(i as int).len() == 0);
            }
            return true;
        }
        if i >= bn {
            proof {
                assert(b@.skip(i as int).len() == 0);
                assert(a@.skip(i as int).len() > 0);
            }
            return false;
        }
        let ca = a_str.get_char(i);
        let cb = b_str.get_char(i);
        proof {
            assert(a@.skip(i as int)[0] == a@[i as int]);
            assert(b@.skip(i as int)[0] == b@[i as int]);
        }
        if ca != cb {
            return ca < cb;
        }
        proof {
            assert(a@.skip(i as int).drop_first() =~= a@.skip(i as int + 1));
            assert(b@.skip(i as int).drop_first() =~= b@.skip(i as int + 1));
        }
        i = i + 1;
    }
}

/// Inserts an element into an already sorted sequence, after every
/// element that does not exceed it.
pub open spec fn insert_sorted(x: Seq<char>, s: Seq<Seq<char>>) -> Seq<Seq<char>>
    decreases s.len(),
{
    if s.len() == 0 {
        seq![x]
    } else if lex_le(s[0], x) {
        seq![s[0]] + insert_sorted(x, s.drop_first())
    } else {
        seq![x] + s
    }
}

/// Insertion sort of a sequence of lines.
pub open spec fn sort_lex(s: Seq<Seq<char>>) -> Seq<Seq<char>>
    decreases s.len(),
{
    if s.len() == 0 {
        Seq::<Seq<char>>::empty()
    } else {
        insert_sorted(s[0], sort_lex(s.drop_first()))
    }
}

/// The insertion point found by a left-to-right scan pins down
/// `insert_sorted`.
proof fn lemma_insert_at(x: Seq<char>, s: Seq<Seq<char>>, j: int)
    requires
        0 <= j <= s.len(),
        forall|k: int| 0 <= k < j ==> lex_le(#[trigger] s[k], x),
        j < s.len() ==> !lex_le(s[j], x),
    ensures
        insert_sorted(x, s) == s.take(j) + seq![x] + s.skip(j),
    decreases j,
{
    if j == 0 {
        if s.len() == 0 {
            assert(insert_sorted(x, s) =~= s.take(0) + seq![x] + s.skip(0));
        } else {
            assert(!lex_le(s[0], x));
            assert(insert_sorted(x, s) =~= s.take(0) + seq![x] + s.skip(0));
        }
    } else {
        assert(lex_le(s[0], x));
        let t = s.drop_first();
        assert forall|k: int| 0 <= k < j - 1 implies lex_le(#[trigger] t[k], x) by {
            assert(t[k] == s[k + 1]);
        }
        if j - 1 < t.len() {
            assert(t[j - 1] == s[j]);
        }
        lemma_insert_at(x, t, j - 1);
        assert(insert_sorted(x, s) == seq![s[0]] + (t.take(j - 1) + seq![x] + t.skip(j - 1)));
        assert(insert_sorted(x, s) =~= s.take(j) + seq![x] + s.skip(j));
    }
}

/// Non-decreasing in the lexicographic order.
pub open spec fn sorted_lex(s: Seq<Seq<char>>) -> bool {
    forall|i: int, j: int| 0 <= i <= j < s.len() ==> lex_le(#[trigger] s[i], #[trigger] s[j])
}

/// The order is reflexive.
pub proof fn lemma_lex_refl(a: Seq<char>)
    ensures
        lex_le(a, a),
    decreases a.len(),
{
    if a.len() > 0 {
        lemma_lex_refl(a.drop_first());
    }
}

/// Inserting into a sorted sequence keeps it sorted and adds exactly
/// the inserted element.
proof fn lemma_insert_sorted_props(x: Seq<char>, s: Seq<Seq<char>>)
    requires
        sorted_lex(s),
    ensures
        sorted_lex(insert_sorted(x, s)),
        insert_sorted(x, s).to_multiset() == s.to_multiset().insert(x),
    decreases s.len(),
{
    broadcast use vstd::seq_lib::group_to_multiset_ensures;

    let r = insert_sorted(x, s);
    if s.len() == 0 {
        assert(r =~= s.push(x));
        lemma_lex_refl(x);
    } else if lex_le(s[0], x) {
        let rest = s.drop_first();
        assert(sorted_lex(rest)) by {
            assert forall|i: int, j: int| 0 <= i <= j < rest.len() implies lex_le(
                #[trigger] rest[i],
                #[trigger] rest[j],
            ) by {
                assert(rest[i] == s[i + 1] && rest[j] == s[j + 1]);
            }
        }
        lemma_insert_sorted_props(x, rest);
        let ins = insert_sorted(x, rest);
        assert(r == seq![s[0]] + ins);
        assert forall|i: int, j: int| 0 <= i <= j < r.len() implies lex_le(
            #[trigger] r[i],
            #[trigger] r[j],
        ) by {
            if i == 0 && j == 0 {
                lemma_lex_refl(s[0]);
            } else if i == 0 {
                let e = ins[j - 1];
                assert(r[j] == e);
                assert(ins.contains(e)) by {
                    assert(ins[j - 1] == e);
                }
                assert(ins.to_multiset().count(e) > 0);
                if e == x {
                } else {
                    assert(rest.to_multiset().count(e) > 0);
                    assert(rest.contains(e));
                    let k = choose|k: int| 0 <= k < rest.len() && rest[k] == e;
                    assert(s[k + 1] == e);
                    assert(lex_le(s[0], s[k + 1]));
                }
            } else {
                assert(r[i] == ins[i - 1] && r[j] == ins[j - 1]);
            }
        }
        assert(r.remove(0) =~= ins);
        assert(ins.to_multiset() == r.to_multiset().remove(r[0]));
        assert(r.contains(s[0])) by {
            assert(r[0] == s[0]);
        }
        assert(s.remove(0) =~= rest);
        assert(rest.to_multiset() == s.to_multiset().remove(s[0]));
        assert(s.contains(s[0])) by {
            assert(s[0] == s[0]);
        }
        assert(r.to_multiset() =~= s.to_multiset().insert(x)) by {
            assert(forall|e: Seq<char>|
                #[trigger] r.to_multiset().count(e) == ins.to_multiset().count(e) + (if e == s[0] {
                    1int
                } else {
                    0int
                }));
            assert(forall|e: Seq<char>|
                #[trigger] s.to_multiset().count(e) == rest.to_multiset().count(e) + (if e == s[0] {
                    1int
                } else {
                    0int
                }));
        }
    } else {
        lemma_lex_total(s[0], x);
        assert(r == seq![x] + s);
        assert forall|i: int, j: int| 0 <= i <= j < r.len() implies lex_le(
            #[trigger] r[i],
            #[trigger] r[j],
        ) by {
            if i == 0 && j == 0 {
                lemma_lex_refl(x);
            } else if i == 0 {
                assert(r[j] == s[j - 1]);
                assert(lex_le(s[0], s[j - 1]));
                lemma_lex_trans(x, s[0], s[j - 1]);
            } else {
                assert(r[i] == s[i - 1] && r[j] == s[j - 1]);
            }
        }
        assert(r.remove(0) =~= s);
        assert(s.to_multiset() == r.to_multiset().remove(r[0]));
        assert(r.contains(x)) by {
            assert(r[0] == x);
        }
        assert(r.to_multiset() =~= s.to_multiset().insert(x));
    }
}

/// What the sort produces is sorted and is a permutation of its input.
pub proof fn lemma_sort_lex_is_a_sort(s: Seq<Seq<char>>)
    ensures
        sorted_lex(sort_lex(s)),
        sort_lex(s).to_multiset() == s.to_multiset(),
    decreases s.len(),
{
    broadcast use vstd::seq_lib::group_to_multiset_ensures;

    if s.len() > 0 {
        let rest = s.drop_first();
        lemma_sort_lex_is_a_sort(rest);
        lemma_insert_sorted_props(s[0], sort_lex(rest));
        assert(s.remove(0) =~= rest);
        assert(rest.to_multiset() == s.to_multiset().remove(s[0]));
        assert(s.contains(s[0])) by {
            assert(s[0] == s[0]);
        }
        assert(sort_lex(s).to_multiset() =~= s.to_multiset());
    }
}

/// Inserts a string into a sorted vector at its ordered position.
fn insert_string(x: String, s: Vec<String>) -> (r: Vec<String>)
    ensures
        r.deep_view() == insert_sorted(x@, s.deep_view()),
{
    let mut s = s;
    let n = s.len();
    let mut j: usize = 0;
    loop
        invariant_except_break
            0 <= j <= n,
            n == s@.len(),
            forall|k: int| 0 <= k < j ==> lex_le(#[trigger] s.deep_view()[k], x@),
        ensures
            0 <= j <= s@.len(),
            n == s@.len(),
            forall|k: int| 0 <= k < j ==> lex_le(#[trigger] s.deep_view()[k], x@),
            j < s@.len() ==> !lex_le(s.deep_view()[j as int], x@),
        decreases n - j,
    {
        if j >= n {
            break ;
        }
        if !str_lex_le(&s[j], &x) {
            break ;
        }
        j = j + 1;
    }
    let ghost pre = s.deep_view();
    proof {
        lemma_insert_at(x@, pre, j as int);
    }
    s.insert(j, x);
    proof {
        assert(s.deep_view() =~= pre.take(j as int) + seq![x@] + pre.skip(j as int));
    }
    s
}

/// Sorts the lines into the lexicographic order.
pub fn sort_strings(v: Vec<String>) -> (r: Vec<String>)
    ensures
        r.deep_view() == sort_lex(v.deep_view()),
    decreases v@.len(),
{
    let mut v = v;
    if v.len() == 0 {
        proof {
            assert(v.deep_view() =~= Seq::<Seq<char>>::empty());
        }
        return v;
    }
    let ghost orig = v.deep_view();
    let first = v.remove(0);
    proof {
        assert(v.deep_view() =~= orig.drop_first());
        assert(first@ == orig[0]);
    }
    let rest = sort_strings(v);
    insert_string(first, rest)
}

/// The lines joined with a separator between consecutive lines.
pub open spec fn join_lines(s: Seq<Seq<char>>, sep: Seq<char>) -> Seq<char>
    decreases s.len(),
{
    if s.len() == 0 {
        Seq::<char>::empty()
    } else if s.len() == 1 {
        s[0]
    } else {
        s[0] + sep + join_lines(s.drop_first(), sep)
    }
}

/// Appending a line extends the join on the right.
proof fn lemma_join_push(s: Seq<Seq<char>>, sep: Seq<char>, x: Seq<char>)
    ensures
        join_lines(s.push(x), sep) == if s.len() == 0 {
            x
        } else {
            join_lines(s, sep) + sep + x
        },
    decreases s.len(),
{
    let p = s.push(x);
    if s.len() == 0 {
        assert(p.len() == 1);
        assert(p[0] == x);
        assert(join_lines(p, sep) =~= x);
    } else if s.len() == 1 {
        assert(p[0] == s[0]);
        assert(p.drop_first() =~= seq![x]);
        assert(join_lines(p.drop_first(), sep) == x);
        assert(join_lines(p, sep) =~= join_lines(s, sep) + sep + x);
    } else {
        assert(p[0] == s[0]);
        assert(p.drop_first() =~= s.drop_first().push(x));
        lemma_join_push(s.drop_first(), sep, x);
        assert(join_lines(p, sep) == s[0] + sep + (join_lines(s.drop_first(), sep) + sep + x));
        assert(join_lines(s, sep) == s[0] + sep + join_lines(s.drop_first(), sep));
        assert(join_lines(p, sep) =~= join_lines(s, sep) + sep + x);
    }
}

/// Joins the lines with a separator.
pub fn join_strings(v: &Vec<String>, sep: &str) -> (r: String)
    ensures
        r@ == join_lines(v.deep_view(), sep@),
{
    let mut out = String::new();
    let mut i: usize = 0;
    while i < v.len()
        invariant
            0 <= i <= v@.len(),
            out@ == join_lines(v.deep_view().take(i as int), sep@),
        decreases v@.len() - i,
    {
        if i > 0 {
            out.append(sep);
        }
        out.append(v[i].as_str());
        proof {
            assert(v.deep_view().take(i + 1) =~= v.deep_view().take(i as int).push(
                v.deep_view()[i as int],
            ));
            lemma_join_push(v.deep_view().take(i as int), sep@, v.deep_view()[i as int]);
            assert(v.deep_view()[i as int] =~= v@[i as int]@);
        }
        i = i + 1;
    }
    proof {
        assert(v.deep_view().take(v.deep_view().len() as int) =~= v.deep_view());
    }
    out
}

} // verus!
