//! Cleansing of extracted data: index selection by regular expression
//! and keeping or removing rows by index.
//!
//! Reading delimited text into series is a caller's concern; these
//! functions work on the extracted vectors.

use vstd::prelude::*;

verus! {

/// Whether `pattern` is a well-formed regular expression: exactly when
/// `regex::Regex::new` accepts it. A property of the pattern alone.
pub uninterp spec fn regex_valid(pattern: Seq<char>) -> bool;

/// Whether the regular expression `pattern` matches somewhere in
/// `text`: the result of `regex::Regex::is_match`, a function of the
/// pattern and the text alone.
pub uninterp spec fn regex_matches(pattern: Seq<char>, text: Seq<char>) -> bool;

/// Relies on `regex::Regex::new` (which accepts or rejects a pattern by
/// its text alone) and `regex::Regex::is_match` (whose result depends
/// on the compiled pattern and the text alone): compiles the pattern
/// and tests the text, `None` on a malformed pattern.
#[verifier::external_body]
fn regex_is_match(pattern: &str, text: &str) -> (r: Option<bool>)
    ensures
        r is Some <==> regex_valid(pattern@),
        r matches Some(b) ==> b == regex_matches(pattern@, text@),
{
    match regex::Regex::new(pattern) {
        Ok(re) => Some(re.is_match(text)),
        Err(_) => None,
    }
}

/// The indexes, in ascending order, of the elements of `texts` that the
/// regular expression matches.
pub open spec fn match_indexes(texts: Seq<Seq<char>>, pattern: Seq<char>, n: int) -> Seq<usize>
    decreases n,
{
    if n <= 0 {
        Seq::empty()
    } else if regex_matches(pattern, texts[n - 1]) {
        match_indexes(texts, pattern, n - 1).push((n - 1) as usize)
    } else {
        match_indexes(texts, pattern, n - 1)
    }
}

/// The index of each element of `vec1` that the regular expression
/// matches, in ascending order; `None` exactly on a malformed pattern
/// tested against a non-empty vector (the pattern is compiled per
/// element, so an empty vector never sees it fail).
pub fn reg_match(vec1: &Vec<String>, regex_string: &str) -> (r: Option<Vec<usize>>)
    ensures
        r is Some <==> (vec1@.len() == 0 || regex_valid(regex_string@)),
        r matches Some(v) ==> v@ == match_indexes(
            vec1@.map_values(|s: String| s@),
            regex_string@,
            vec1@.len() as int,
        ),
{
    let ghost texts = vec1@.map_values(|s: String| s@);
    let mut match_vec: Vec<usize> = Vec::new();
    let mut i: usize = 0;
    while i < vec1.len()
        invariant
            i <= vec1.len(),
            texts == vec1@.map_values(|s: String| s@),
            i > 0 ==> regex_valid(regex_string@),
            match_vec@ == match_indexes(texts, regex_string@, i as int),
        decreases vec1.len() - i,
    {
        let pred = match regex_is_match(regex_string, vec1[i].as_str()) {
            Some(b) => b,
            None => {
                return None;
            },
        };
        if pred {
            match_vec.push(i);
        }
        i = i + 1;
    }
    Some(match_vec)
}

/// The positions of the original vector that survive removing the
/// listed positions in reverse order, each removal index read against
/// the positions the earlier removals left; `None` when an index is out
/// of bounds at its own step (where the removal would panic).
pub open spec fn remove_positions(positions: Seq<int>, rev_idx: Seq<usize>) -> Option<Seq<int>>
    decreases rev_idx.len(),
{
    if rev_idx.len() == 0 {
        Some(positions)
    } else if rev_idx[0] < positions.len() {
        remove_positions(positions.remove(rev_idx[0] as int), rev_idx.drop_first())
    } else {
        None
    }
}

/// The identity position sequence `0, 1, ..., len - 1`.
pub open spec fn iota(len: int) -> Seq<int> {
    Seq::new(len as nat, |i: int| i)
}

/// Returns a copy of `vec1` with the elements at the listed positions
/// removed. The positions are processed from the last listed to the
/// first, each index read against the vector the earlier removals left,
/// so an ascending index list (as `reg_match` produces) removes exactly
/// the listed positions of the original vector. The result holds, in
/// order, a clone of the original element at each surviving position.
pub fn vec_remove_where<T: Clone>(vec1: &Vec<T>, index_vec: &Vec<usize>) -> (r: Vec<T>)
    requires
        remove_positions(iota(vec1@.len() as int), index_vec@.reverse()) is Some,
    ensures
        ({
            let surv = remove_positions(iota(vec1@.len() as int), index_vec@.reverse())->0;
            &&& r@.len() == surv.len()
            &&& forall|k: int|
                0 <= k < surv.len() ==> 0 <= surv[k] < vec1@.len() && vstd::pervasive::cloned::<T>(
                    vec1@[surv[k]],
                    #[trigger] r@[k],
                )
        }),
{
    let ghost full = remove_positions(iota(vec1@.len() as int), index_vec@.reverse());
    let mut keep_vec: Vec<T> = Vec::new();
    let ghost mut positions: Seq<int> = iota(vec1@.len() as int);
    let mut i: usize = 0;
    while i < vec1.len()
        invariant
            i <= vec1.len(),
            keep_vec@.len() == i,
            forall|k: int|
                0 <= k < i ==> vstd::pervasive::cloned::<T>(vec1@[k], #[trigger] keep_vec@[k]),
        decreases vec1.len() - i,
    {
        keep_vec.push(vec1[i].clone());
        i = i + 1;
    }
    proof {
        positions = iota(vec1@.len() as int);
        assert(forall|k: int| 0 <= k < positions.len() ==> positions[k] == k);
        assert(index_vec@.reverse().skip(0) =~= index_vec@.reverse());
    }
    let mut j: usize = 0;
    while j < index_vec.len()
        invariant
            j <= index_vec.len(),
            keep_vec@.len() == positions.len(),
            forall|k: int| #![trigger positions[k]]
                0 <= k < positions.len() ==> 0 <= positions[k] < vec1@.len()
                    && vstd::pervasive::cloned::<T>(vec1@[positions[k]], keep_vec@[k]),
            remove_positions(positions, index_vec@.reverse().skip(j as int)) == full,
            full is Some,
        decreases index_vec.len() - j,
    {
        proof {
            let rev = index_vec@.reverse();
            assert(rev.skip(j as int)[0] == rev[j as int]);
            assert(rev[j as int] == index_vec@[index_vec@.len() - 1 - j]);
            assert(rev.skip(j as int).len() > 0);
            assert(rev.skip(j as int).drop_first() =~= rev.skip(j + 1));
        }
        let idx = index_vec[index_vec.len() - 1 - j];
        assert(idx < keep_vec.len());
        let ghost kv0 = keep_vec@;
        let ghost pos0 = positions;
        keep_vec.remove(idx);
        proof {
            positions = positions.remove(idx as int);
            pos0.remove_ensures(idx as int);
            kv0.remove_ensures(idx as int);
            assert(keep_vec@ =~= kv0.remove(idx as int));
            assert forall|k: int| #![trigger positions[k]]
                0 <= k < positions.len() implies 0 <= positions[k] < vec1@.len()
                && vstd::pervasive::cloned::<T>(vec1@[positions[k]], keep_vec@[k]) by {
                if k < idx {
                    assert(positions[k] == pos0[k]);
                    assert(keep_vec@[k] == kv0[k]);
                } else {
                    assert(positions[k] == pos0[k + 1]);
                    assert(keep_vec@[k] == kv0[k + 1]);
                }
            }
        }
        j = j + 1;
    }
    proof {
        assert(index_vec@.reverse().skip(index_vec@.len() as int) =~= Seq::<usize>::empty());
        assert(remove_positions(positions, Seq::<usize>::empty()) == Some(positions));
    }
    keep_vec
}

/// Returns a copy holding, in order, the element of `vec1` at each
/// listed position.
pub fn vec_keep_where<T: Clone>(vec1: &Vec<T>, index_vec: &Vec<usize>) -> (r: Vec<T>)
    requires
        forall|k: int| 0 <= k < index_vec@.len() ==> index_vec@[k] < vec1@.len(),
    ensures
        r@.len() == index_vec@.len(),
        forall|k: int|
            0 <= k < index_vec@.len() ==> vstd::pervasive::cloned::<T>(
                vec1@[index_vec@[k] as int],
                #[trigger] r@[k],
            ),
{
    let mut keep_vec: Vec<T> = Vec::new();
    let mut i: usize = 0;
    while i < index_vec.len()
        invariant
            i <= index_vec.len(),
            forall|k: int| 0 <= k < index_vec@.len() ==> index_vec@[k] < vec1@.len(),
            keep_vec@.len() == i,
            forall|k: int|
                0 <= k < i ==> vstd::pervasive::cloned::<T>(
                    vec1@[index_vec@[k] as int],
                    #[trigger] keep_vec@[k],
                ),
        decreases index_vec.len() - i,
    {
        keep_vec.push(vec1[index_vec[i]].clone());
        i = i + 1;
    }
    keep_vec
}


/// The matched indexes come out strictly ascending and within the
/// vector: exactly the shape the removal precondition needs.
pub proof fn lemma_match_indexes_ascending(texts: Seq<Seq<char>>, pattern: Seq<char>, n: int)
    requires
        0 <= n <= usize::MAX,
    ensures
        forall|k: int|
            0 <= k < match_indexes(texts, pattern, n).len() ==> #[trigger] match_indexes(
                texts,
                pattern,
                n,
            )[k] < n,
        forall|k1: int, k2: int|
            0 <= k1 < k2 < match_indexes(texts, pattern, n).len() ==> match_indexes(
                texts,
                pattern,
                n,
            )[k1] < match_indexes(texts, pattern, n)[k2],
    decreases n,
{
    if n > 0 {
        lemma_match_indexes_ascending(texts, pattern, n - 1);
        let prefix = match_indexes(texts, pattern, n - 1);
        let whole = match_indexes(texts, pattern, n);
        if regex_matches(pattern, texts[n - 1]) {
            assert(whole == prefix.push((n - 1) as usize));
            assert(forall|k: int| 0 <= k < prefix.len() ==> whole[k] == #[trigger] prefix[k]);
            assert(whole[whole.len() - 1] == (n - 1) as usize);
        } else {
            assert(whole == prefix);
        }
    }
}

/// A strictly ascending list of in-bounds positions never removes out
/// of bounds: each reverse-order removal happens strictly above every
/// later one, so the later indexes keep pointing into the shorter
/// vector.
pub proof fn lemma_ascending_removals_ok(positions: Seq<int>, idx: Seq<usize>)
    requires
        forall|k: int| 0 <= k < idx.len() ==> #[trigger] idx[k] < positions.len(),
        forall|k1: int, k2: int| 0 <= k1 < k2 < idx.len() ==> idx[k1] < idx[k2],
    ensures
        remove_positions(positions, idx.reverse()) is Some,
    decreases idx.len(),
{
    if idx.len() > 0 {
        let rev = idx.reverse();
        let last = idx[idx.len() - 1];
        assert(rev[0] == last);
        assert(rev.drop_first() =~= idx.drop_last().reverse());
        let shorter = positions.remove(last as int);
        assert forall|k: int|
            0 <= k < idx.drop_last().len() implies #[trigger] idx.drop_last()[k]
            < shorter.len() by {
            assert(idx[k] < idx[idx.len() - 1]);
        }
        lemma_ascending_removals_ok(shorter, idx.drop_last());
    }
}

} // verus!
