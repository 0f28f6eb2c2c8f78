//! The CPU descriptor table reader: the table is a sequence of
//! blank-line-delimited blocks, one per logical CPU, each line of the form
//! `name : value`. This module splits the lines into blocks and extracts
//! the ordered field names of a block. Blocks need not have uniform field
//! sets across CPUs; that is expected, not an error.

use vstd::prelude::*;

use crate::text::{prefix_before, str_eq, str_prefix_before, trim_spec, trim_str};

verus! {

/// Split a list into the runs between occurrences of the separator: a run
/// is emitted at each separator, and whatever follows the last separator
/// is not emitted.
pub open spec fn split_list_spec(ls: Seq<Seq<char>>, sep: Seq<char>) -> Seq<Seq<Seq<char>>>
    decreases ls.len(),
{
    if ls.len() == 0 {
        seq![]
    } else if ls[0] == sep {
        seq![Seq::<Seq<char>>::empty()] + split_list_spec(ls.drop_first(), sep)
    } else {
        let rest = split_list_spec(ls.drop_first(), sep);
        if rest.len() == 0 {
            seq![]
        } else {
            seq![seq![ls[0]] + rest[0]] + rest.drop_first()
        }
    }
}

/// A run in progress, put in front of the runs still to come: nothing if
/// no further separator occurs, else the run completed by the first
/// emitted run of the remainder.
pub open spec fn prepend_run(t: Seq<Seq<char>>, r: Seq<Seq<Seq<char>>>) -> Seq<Seq<Seq<char>>> {
    if r.len() == 0 {
        seq![]
    } else {
        seq![t + r[0]] + r.drop_first()
    }
}

/// Split a list of lines into the runs between occurrences of the
/// separator line.
pub fn split_list(ls: Vec<String>, sep: &str) -> (r: Vec<Vec<String>>)
    ensures
        r.deep_view() == split_list_spec(ls.deep_view(), sep@),
{
    let ghost lsv = ls.deep_view();
    let mut result: Vec<Vec<String>> = Vec::new();
    let mut temp: Vec<String> = Vec::new();
    let mut i: usize = 0;
    proof {
        assert(lsv.skip(0) =~= lsv);
        assert(result.deep_view() =~= Seq::<Seq<Seq<char>>>::empty());
        assert(temp.deep_view() =~= Seq::<Seq<char>>::empty());
        assert(Seq::<Seq<Seq<char>>>::empty() + prepend_run(temp.deep_view(), split_list_spec(lsv, sep@))
            =~= prepend_run(temp.deep_view(), split_list_spec(lsv, sep@)));
    }
    while i < ls.len()
        invariant
            i <= ls.len(),
            lsv == ls.deep_view(),
            split_list_spec(lsv, sep@) == result.deep_view() + prepend_run(
                temp.deep_view(),
                split_list_spec(lsv.skip(i as int), sep@),
            ),
        decreases ls.len() - i,
    {
        let x = &ls[i];
        proof {
            assert(lsv[i as int] == ls@[i as int]@);
            assert(lsv.skip(i as int)[0] == lsv[i as int]);
            assert(lsv.skip(i as int).drop_first() =~= lsv.skip(i + 1));
        }
        let ghost snext = split_list_spec(lsv.skip(i + 1), sep@);
        if str_eq(x.as_str(), sep) {
            proof {
                assert(split_list_spec(lsv.skip(i as int), sep@) == seq![Seq::<Seq<char>>::empty()]
                    + snext);
                assert((seq![Seq::<Seq<char>>::empty()] + snext)[0] =~= Seq::<Seq<char>>::empty());
                assert((seq![Seq::<Seq<char>>::empty()] + snext).drop_first() =~= snext);
                assert(temp.deep_view() + Seq::<Seq<char>>::empty() =~= temp.deep_view());
            }
            let ghost r0 = result.deep_view();
            let ghost t0 = temp.deep_view();
            result.push(temp);
            temp = Vec::new();
            proof {
                assert(result.deep_view() =~= r0.push(t0));
                assert(temp.deep_view() =~= Seq::<Seq<char>>::empty());
                assert(r0 + (seq![t0] + snext) =~= r0.push(t0) + snext);
                if snext.len() == 0 {
                    assert(prepend_run(temp.deep_view(), snext) =~= Seq::<Seq<Seq<char>>>::empty());
                    assert(r0.push(t0) + Seq::<Seq<Seq<char>>>::empty() =~= r0.push(t0));
                    assert(r0 + (seq![t0] + snext) =~= r0.push(t0));
                } else {
                    assert(Seq::<Seq<char>>::empty() + snext[0] =~= snext[0]);
                    assert(prepend_run(temp.deep_view(), snext) =~= snext);
                    assert(r0 + (seq![t0] + snext) =~= r0.push(t0) + prepend_run(
                        temp.deep_view(),
                        snext,
                    ));
                }
            }
        } else {
            proof {
                assert(lsv[i as int] != sep@);
            }
            let ghost t0 = temp.deep_view();
            let x2 = x.clone();
            temp.push(x2);
            proof {
                assert(temp.deep_view() =~= t0.push(lsv[i as int]));
                if snext.len() == 0 {
                    assert(split_list_spec(lsv.skip(i as int), sep@) =~= Seq::<
                        Seq<Seq<char>>,
                    >::empty());
                } else {
                    assert(split_list_spec(lsv.skip(i as int), sep@) == seq![seq![lsv[i as int]]
                        + snext[0]] + snext.drop_first());
                    assert(t0 + (seq![lsv[i as int]] + snext[0]) =~= t0.push(lsv[i as int])
                        + snext[0]);
                    assert(prepend_run(t0, split_list_spec(lsv.skip(i as int), sep@)) =~= seq![t0
                        + (seq![lsv[i as int]] + snext[0])] + snext.drop_first());
                    assert(prepend_run(t0, split_list_spec(lsv.skip(i as int), sep@))
                        =~= prepend_run(temp.deep_view(), snext));
                }
            }
        }
        i = i + 1;
    }
    proof {
        assert(lsv.skip(ls.len() as int) =~= Seq::<Seq<char>>::empty());
        assert(split_list_spec(Seq::<Seq<char>>::empty(), sep@) =~= Seq::<Seq<Seq<char>>>::empty());
        assert(result.deep_view() + Seq::<Seq<Seq<char>>>::empty() =~= result.deep_view());
    }
    result
}

/// The field names of a block: on each line, the text before the first
/// colon, trimmed of surrounding whitespace.
pub open spec fn field_names_spec(block: Seq<Seq<char>>) -> Seq<Seq<char>> {
    block.map_values(|l: Seq<char>| trim_spec(prefix_before(l, ':')))
}

/// One logical CPU's block of the CPU descriptor table, reduced to its
/// ordered field names.
#[derive(Debug, Clone, PartialEq)]
pub struct CpuInfo {
    /// The field names of the block, in order.
    pub field_names: Vec<String>,
}

impl CpuInfo {
    /// Extract the field names of one block.
    pub fn from_block(block: &Vec<String>) -> (c: CpuInfo)
        ensures
            c.field_names.deep_view() == field_names_spec(block.deep_view()),
    {
        let ghost bv = block.deep_view();
        let mut names: Vec<String> = Vec::new();
        let mut i: usize = 0;
        proof {
            assert(names.deep_view() =~= field_names_spec(bv.take(0)));
        }
        while i < block.len()
            invariant
                i <= block.len(),
                bv == block.deep_view(),
                names.deep_view() == field_names_spec(bv.take(i as int)),
            decreases block.len() - i,
        {
            let p = str_prefix_before(block[i].as_str(), ':');
            let t = trim_str(p.as_str());
            let ghost n0 = names.deep_view();
            names.push(t);
            proof {
                assert(bv[i as int] == block@[i as int]@);
                assert(names.deep_view() =~= n0.push(t@));
                assert(field_names_spec(bv.take(i + 1)) =~= n0.push(t@));
            }
            i = i + 1;
        }
        proof {
            assert(bv.take(block.len() as int) =~= bv);
        }
        CpuInfo { field_names: names }
    }
}

} // verus!
