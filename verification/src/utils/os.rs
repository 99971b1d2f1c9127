//! What the agent makes of the output of system commands.
use vstd::prelude::*;

use crate::utils::common::{contains_seq, is_contain, lines_to_string_vec, lines_of};

verus! {

/// The lines of `text` that contain `name`, in order.
pub open spec fn lines_containing(text: Seq<char>, name: Seq<char>) -> Seq<Seq<char>> {
    lines_of(text).filter(|l: Seq<char>| contains_seq(l, name))
}

proof fn lemma_filter_from<A>(s: Seq<A>, pred: spec_fn(A) -> bool)
    ensures
        forall|j: int| 0 <= j < s.filter(pred).len() ==> s.contains(#[trigger] s.filter(pred)[j]),
    decreases s.len(),
{
    reveal_with_fuel(Seq::<_>::filter, 1);
    if s.len() > 0 {
        let init = s.drop_last();
        lemma_filter_from(init, pred);
        assert forall|j: int| 0 <= j < s.filter(pred).len() implies s.contains(#[trigger] s.filter(pred)[j]) by {
            if j < init.filter(pred).len() {
                assert(s.filter(pred)[j] == init.filter(pred)[j]);
                let k = choose|k: int| 0 <= k < init.len() && init[k] == init.filter(pred)[j];
                assert(s[k] == init[k]);
            } else {
                assert(s.filter(pred)[j] == s.last());
                assert(s[s.len() - 1] == s.last());
            }
        }
    }
}

/// Law: the lines found for `name` are exactly the lines of the listing that
/// contain `name`: every such line is found, and every line found is a line of
/// the listing that contains `name`.
pub proof fn lemma_lines_containing(text: Seq<char>, name: Seq<char>)
    ensures
        forall|i: int|
            0 <= i < lines_of(text).len() && contains_seq(lines_of(text)[i], name) ==> lines_containing(
                text,
                name,
            ).contains(#[trigger] lines_of(text)[i]),
        forall|j: int|
            0 <= j < lines_containing(text, name).len() ==> contains_seq(
                #[trigger] lines_containing(text, name)[j],
                name,
            ) && lines_of(text).contains(lines_containing(text, name)[j]),
        lines_containing(text, name).len() <= lines_of(text).len(),
{
    broadcast use vstd::seq_lib::group_filter_ensures;

    let pred = |l: Seq<char>| contains_seq(l, name);
    assert forall|i: int| 0 <= i < lines_of(text).len() && contains_seq(lines_of(text)[i], name) implies lines_containing(
        text,
        name,
    ).contains(#[trigger] lines_of(text)[i]) by {
        assert(pred(lines_of(text)[i]));
    }
    lemma_filter_from(lines_of(text), pred);
}

/// The local IP addresses, one per line of the output of the command that lists them.
pub fn get_all_local_ip(shell_output: &str) -> (r: Vec<String>)
    ensures
        r@.len() == lines_of(shell_output@).len(),
        forall|i: int| 0 <= i < r@.len() ==> (#[trigger] r@[i])@ == lines_of(shell_output@)[i],
{
    lines_to_string_vec(shell_output)
}

/// The lines of a process listing (`ps -e -o command`) that contain `name`.
pub fn get_process(ps_output: &str, name: &str) -> (r: Vec<String>)
    ensures
        r@.map_values(|s: String| s@) == lines_containing(ps_output@, name@),
{
    let lines = lines_to_string_vec(ps_output);
    let ghost all = lines_of(ps_output@);
    let ghost pred = |l: Seq<char>| contains_seq(l, name@);
    let mut r: Vec<String> = Vec::new();
    let mut i: usize = 0;
    assert(all.take(0) =~= Seq::<Seq<char>>::empty());
    while i < lines.len()
        invariant
            i <= lines@.len(),
            lines@.len() == all.len(),
            all == lines_of(ps_output@),
            pred == (|l: Seq<char>| contains_seq(l, name@)),
            forall|q: int| 0 <= q < lines@.len() ==> (#[trigger] lines@[q])@ == all[q],
            r@.map_values(|s: String| s@) == all.take(i as int).filter(pred),
        decreases lines@.len() - i,
    {
        reveal_with_fuel(Seq::<_>::filter, 1);
        let ghost before = r@;
        if is_contain(lines[i].as_str(), name) {
            r.push(lines[i].clone());
            assert(r@.map_values(|s: String| s@) =~= before.map_values(|s: String| s@).push(all[i as int]));
        }
        assert(all.take(i + 1).drop_last() =~= all.take(i as int));
        i = i + 1;
    }
    assert(all.take(lines@.len() as int) =~= all);
    r
}

} // verus!
