//! Turning delimited text into a populated simulation engine. Reading the
//! text from disk stays with the caller; everything from raw content to
//! engine is verified here.

use vstd::prelude::*;
use vstd::string::StrSliceExecFns;
use crate::SimError;
use crate::fixed::parse_decimal_milli;
use crate::fixed::parse_milli;
use crate::montecarlo::{MonteCarlo, MAX_ENTITIES};
use crate::pert::PertValues;
use crate::text::{
    char_pos, lemma_char_pos_ge, lemma_char_pos_le, lemma_char_pos_le_len, trim_owned, trim_spec,
};

verus! {

/// The views of a sequence of owned strings.
pub open spec fn views_of(v: Seq<String>) -> Seq<Seq<char>> {
    v.map_values(|piece: String| piece@)
}

/// The pieces of `s` between occurrences of `sep`, each trimmed of ASCII
/// whitespace; text without the separator is one piece.
pub open spec fn split_trimmed(s: Seq<char>, sep: char) -> Seq<Seq<char>>
    decreases s.len(),
{
    let p = char_pos(s, sep);
    if 0 <= p < s.len() {
        seq![trim_spec(s.subrange(0, p))] + split_trimmed(s.subrange(p + 1, s.len() as int), sep)
    } else {
        seq![trim_spec(s)]
    }
}

/// Splitting text whose first separator stands at `k` yields the trimmed
/// prefix and then the split of what follows the separator.
proof fn lemma_split_step(s: Seq<char>, sep: char, k: int)
    requires
        0 <= k < s.len(),
        s[k] == sep,
        forall|j: int| 0 <= j < k ==> s[j] != sep,
    ensures
        split_trimmed(s, sep) == seq![trim_spec(s.subrange(0, k))] + split_trimmed(
            s.subrange(k + 1, s.len() as int),
            sep,
        ),
{
    lemma_char_pos_ge(s, sep, k);
    lemma_char_pos_le(s, sep, k);
}

/// Splitting separator-free text yields that text alone, trimmed.
proof fn lemma_split_whole(s: Seq<char>, sep: char)
    requires
        forall|j: int| 0 <= j < s.len() ==> s[j] != sep,
    ensures
        split_trimmed(s, sep) == seq![trim_spec(s)],
{
    lemma_char_pos_le_len(s, sep);
    lemma_char_pos_ge(s, sep, s.len() as int);
}

/// Splits a string at every occurrence of the separator and trims each
/// piece of ASCII whitespace.
pub fn splitter(input_str: &str, split_point: char) -> (vec_out: Vec<String>)
    ensures
        views_of(vec_out@) == split_trimmed(input_str@, split_point),
{
    let n = input_str.unicode_len();
    let mut vec_out: Vec<String> = Vec::new();
    let mut start: usize = 0;
    let mut i: usize = 0;
    proof {
        assert(input_str@.subrange(0, n as int) =~= input_str@);
        assert(views_of(vec_out@) + split_trimmed(input_str@, split_point) =~~= split_trimmed(
            input_str@,
            split_point,
        ));
    }
    while i < n
        invariant
            n == input_str@.len(),
            start <= i <= n,
            forall|j: int| start <= j < i ==> input_str@[j] != split_point,
            split_trimmed(input_str@, split_point) == views_of(vec_out@) + split_trimmed(
                input_str@.subrange(start as int, n as int),
                split_point,
            ),
        decreases n - i,
    {
        if input_str.get_char(i) == split_point {
            let piece = trim_owned(input_str.substring_char(start, i));
            proof {
                let whole = input_str@;
                let suffix = whole.subrange(start as int, n as int);
                assert forall|j: int| 0 <= j < i - start implies suffix[j] != split_point by {
                    assert(suffix[j] == whole[start + j]);
                };
                assert(suffix[i as int - start as int] == whole[i as int]);
                lemma_split_step(suffix, split_point, i as int - start as int);
                assert(suffix.subrange(0, i as int - start as int) =~= whole.subrange(
                    start as int,
                    i as int,
                ));
                assert(suffix.subrange(i as int - start as int + 1, suffix.len() as int)
                    =~= whole.subrange(i as int + 1, n as int));
                assert(views_of(vec_out@.push(piece)) =~~= views_of(vec_out@).push(piece@));
                assert((views_of(vec_out@) + seq![piece@]) + split_trimmed(
                    whole.subrange(i as int + 1, n as int),
                    split_point,
                ) =~~= views_of(vec_out@) + (seq![piece@] + split_trimmed(
                    whole.subrange(i as int + 1, n as int),
                    split_point,
                )));
                assert(views_of(vec_out@).push(piece@) =~~= views_of(vec_out@) + seq![piece@]);
            }
            vec_out.push(piece);
            start = i + 1;
        }
        i += 1;
    }
    let piece = trim_owned(input_str.substring_char(start, n));
    proof {
        let whole = input_str@;
        let suffix = whole.subrange(start as int, n as int);
        assert forall|j: int| 0 <= j < suffix.len() implies suffix[j] != split_point by {
            assert(suffix[j] == whole[start + j]);
        };
        lemma_split_whole(suffix, split_point);
        assert(views_of(vec_out@.push(piece)) =~~= views_of(vec_out@).push(piece@));
        assert(views_of(vec_out@).push(piece@) =~~= views_of(vec_out@) + seq![piece@]);
    }
    vec_out.push(piece);
    proof {
        assert(views_of(vec_out@) =~~= split_trimmed(input_str@, split_point));
    }
    vec_out
}

/// Splits raw delimited content into its trimmed lines. Opening and reading
/// the file itself is the caller's concern; only the text handling stands
/// here.
pub fn prep_strings_level_one(content: &str) -> (lines: Vec<String>)
    ensures
        views_of(lines@) == split_trimmed(content@, '\n'),
{
    splitter(content, '\n')
}

/// The cells of one line of the content: the line split at the field
/// separator, trimmed.
pub open spec fn line_cells(content: Seq<char>, sep: char, i: int) -> Seq<Seq<char>> {
    split_trimmed(split_trimmed(content, '\n')[i], sep)
}

/// The four configured columns exist in the row and its three estimate
/// cells each read as a representable decimal.
pub open spec fn row_valid(row: Seq<Seq<char>>, ocol: int, mcol: int, wcol: int, ncol: int) -> bool {
    &&& 1 <= ocol <= row.len()
    &&& 1 <= mcol <= row.len()
    &&& 1 <= wcol <= row.len()
    &&& 1 <= ncol <= row.len()
    &&& parse_decimal_milli(row[ocol - 1]) is Some
    &&& parse_decimal_milli(row[mcol - 1]) is Some
    &&& parse_decimal_milli(row[wcol - 1]) is Some
}

/// One line of the content passes `row_valid` under the configured columns.
pub open spec fn line_valid(
    content: Seq<char>,
    sep: char,
    ocol: int,
    mcol: int,
    wcol: int,
    ncol: int,
    i: int,
) -> bool {
    row_valid(line_cells(content, sep, i), ocol, mcol, wcol, ncol)
}

/// The estimate was built from the row's configured cells: its name is the
/// name cell and its three inputs are the three parsed estimate cells.
pub open spec fn pert_from_row(
    p: PertValues,
    row: Seq<Seq<char>>,
    ocol: int,
    mcol: int,
    wcol: int,
    ncol: int,
) -> bool {
    &&& p.name@ == row[ncol - 1]
    &&& p.optimistic == parse_decimal_milli(row[ocol - 1])->Some_0
    &&& p.most_likely == parse_decimal_milli(row[mcol - 1])->Some_0
    &&& p.pessimistic == parse_decimal_milli(row[wcol - 1])->Some_0
    &&& p.wf()
}

/// Builds a task-mode engine from delimited content: one estimate per line,
/// with the name and the three estimates taken from the one-based columns
/// given. Any missing column or unreadable estimate cell — and content with
/// more lines than the engine can sum — fails with `ConfigurationError`.
pub fn prep_strings_level_two(
    content: &str,
    ocol: usize,
    mcol: usize,
    wcol: usize,
    ncol: usize,
    sep: char,
    its: usize,
) -> (r: Result<MonteCarlo, SimError>)
    ensures
        r is Ok <==> (split_trimmed(content@, '\n').len() <= MAX_ENTITIES && forall|i: int|
            0 <= i < split_trimmed(content@, '\n').len() ==> #[trigger] line_valid(
                content@,
                sep,
                ocol as int,
                mcol as int,
                wcol as int,
                ncol as int,
                i,
            )),
        r is Err ==> r->Err_0 == SimError::ConfigurationError,
        r is Ok ==> (r->Ok_0.iterations == its && r->Ok_0.risks@.len() == 0
            && r->Ok_0.estimates@.len() == 0 && r->Ok_0.perts@.len() == split_trimmed(
            content@,
            '\n',
        ).len() && r->Ok_0.wf()),
        r is Ok ==> forall|i: int|
            0 <= i < split_trimmed(content@, '\n').len() ==> pert_from_row(
                #[trigger] r->Ok_0.perts@[i],
                line_cells(content@, sep, i),
                ocol as int,
                mcol as int,
                wcol as int,
                ncol as int,
            ),
{
    let vec_of_strings = prep_strings_level_one(content);
    if vec_of_strings.len() > MAX_ENTITIES {
        return Err(SimError::ConfigurationError);
    }
    let mut monty_karlo = MonteCarlo::new(its);
    let mut li: usize = 0;
    while li < vec_of_strings.len()
        invariant
            views_of(vec_of_strings@) == split_trimmed(content@, '\n'),
            vec_of_strings@.len() <= MAX_ENTITIES,
            li <= vec_of_strings@.len(),
            monty_karlo.iterations == its,
            monty_karlo.risks@.len() == 0,
            monty_karlo.estimates@.len() == 0,
            monty_karlo.perts@.len() == li,
            monty_karlo.wf(),
            forall|i: int|
                0 <= i < li ==> #[trigger] line_valid(
                    content@,
                    sep,
                    ocol as int,
                    mcol as int,
                    wcol as int,
                    ncol as int,
                    i,
                ),
            forall|i: int|
                0 <= i < li ==> pert_from_row(
                    #[trigger] monty_karlo.perts@[i],
                    line_cells(content@, sep, i),
                    ocol as int,
                    mcol as int,
                    wcol as int,
                    ncol as int,
                ),
        decreases vec_of_strings@.len() - li,
    {
        let row = splitter(vec_of_strings[li].as_str(), sep);
        proof {
            assert(views_of(vec_of_strings@)[li as int] == vec_of_strings@[li as int]@);
            assert(views_of(row@) == line_cells(content@, sep, li as int));
        }
        if ncol < 1 || ncol > row.len() || ocol < 1 || ocol > row.len() || mcol < 1 || mcol
            > row.len() || wcol < 1 || wcol > row.len() {
            proof {
                assert(!line_valid(
                    content@,
                    sep,
                    ocol as int,
                    mcol as int,
                    wcol as int,
                    ncol as int,
                    li as int,
                ));
            }
            return Err(SimError::ConfigurationError);
        }
        proof {
            assert(views_of(row@)[ocol - 1] == row@[ocol - 1]@);
            assert(views_of(row@)[mcol - 1] == row@[mcol - 1]@);
            assert(views_of(row@)[wcol - 1] == row@[wcol - 1]@);
            assert(views_of(row@)[ncol - 1] == row@[ncol - 1]@);
        }
        let name = row[ncol - 1].clone();
        let opp = match parse_milli(row[ocol - 1].as_str()) {
            Some(v) => v,
            None => {
                proof {
                    assert(!line_valid(
                        content@,
                        sep,
                        ocol as int,
                        mcol as int,
                        wcol as int,
                        ncol as int,
                        li as int,
                    ));
                }
                return Err(SimError::ConfigurationError);
            },
        };
        let most = match parse_milli(row[mcol - 1].as_str()) {
            Some(v) => v,
            None => {
                proof {
                    assert(!line_valid(
                        content@,
                        sep,
                        ocol as int,
                        mcol as int,
                        wcol as int,
                        ncol as int,
                        li as int,
                    ));
                }
                return Err(SimError::ConfigurationError);
            },
        };
        let wor = match parse_milli(row[wcol - 1].as_str()) {
            Some(v) => v,
            None => {
                proof {
                    assert(!line_valid(
                        content@,
                        sep,
                        ocol as int,
                        mcol as int,
                        wcol as int,
                        ncol as int,
                        li as int,
                    ));
                }
                return Err(SimError::ConfigurationError);
            },
        };
        let inner_pert = PertValues::new(name, opp, most, wor);
        monty_karlo.perts.push(inner_pert);
        li += 1;
    }
    Ok(monty_karlo)
}

} // verus!
