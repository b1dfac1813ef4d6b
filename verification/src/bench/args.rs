//! Command-line flags.

use vstd::prelude::*;
use vstd::string::*;

use crate::numbers::{a_text_is_a_number_or_has_a_fault, a_written_number_is_read_back, behind_sign, fault_text, number_fault, parse_unsigned, unsigned_of, NumberFault};
use crate::text::{chars_of, decimal, decimal_reads_back, has_prefix, is_digit, joined, number_of, same, string_of, texts, trim, trimmed};

verus! {

/// The place of the first argument of that name, from the `i`-th on.
pub open spec fn flag_place(args: Seq<Seq<char>>, name: Seq<char>, i: int) -> Option<int>
    decreases args.len() - i,
{
    if i >= args.len() {
        None
    } else if args[i] == name {
        Some(i)
    } else {
        flag_place(args, name, i + 1)
    }
}

/// The argument behind the first one of that name.
pub open spec fn flag_value(args: Seq<Seq<char>>, name: Seq<char>) -> Option<Seq<char>> {
    match flag_place(args, name, 0) {
        Some(i) => if i + 1 < args.len() {
            Some(args[i + 1])
        } else {
            None
        },
        None => None,
    }
}

/// The value of a flag: the argument behind its first occurrence.
pub fn flag(args: &Vec<String>, name: &str) -> (r: Option<String>)
    ensures
        match r {
            Some(v) => flag_value(texts(args@), name@) == Some(v@),
            None => flag_value(texts(args@), name@) is None,
        },
{
    let ghost all = texts(args@);
    let n = args.len();
    let mut i: usize = 0;
    while i < n
        invariant
            i <= n,
            n == args@.len(),
            all == texts(args@),
            flag_place(all, name@, 0) == flag_place(all, name@, i as int),
        decreases n - i,
    {
        assert(all[i as int] == args@[i as int]@);
        if same(args[i].as_str(), name) {
            if i + 1 < n {
                assert(all[i + 1] == args@[i + 1]@);
                return Some(args[i + 1].clone());
            }
            return None;
        }
        i = i + 1;
    }
    None
}

/// The value of a flag that has to be given.
pub fn required(args: &Vec<String>, name: &str) -> (r: Result<String, String>)
    ensures
        match r {
            Ok(v) => flag_value(texts(args@), name@) == Some(v@),
            Err(e) => flag_value(texts(args@), name@) is None && e@ == "missing required flag "@
                + name@,
        },
{
    match flag(args, name) {
        Some(v) => Ok(v),
        None => {
            let mut e = "missing required flag ".to_owned();
            e.append(name);
            Err(e)
        },
    }
}

/// What is said where the value of a flag is no number.
pub open spec fn flag_error(name: Seq<char>, fault: NumberFault) -> Seq<char> {
    name + ": "@ + fault_text(fault)
}

/// The number that a flag gives, or what is wrong with its value.
pub open spec fn flag_number(
    args: Seq<Seq<char>>,
    name: Seq<char>,
    max: nat,
    default: nat,
) -> Result<nat, Seq<char>> {
    match flag_value(args, name) {
        None => Ok(default),
        Some(v) => match number_fault(v, max) {
            None => Ok(number_of(behind_sign(v, '+'))),
            Some(fault) => Err(flag_error(name, fault)),
        },
    }
}

/// The value of a flag as a whole number from zero to `max`, or the default
/// where it is not given.
pub fn parsed(args: &Vec<String>, name: &str, max: u64, default: u64) -> (r: Result<u64, String>)
    requires
        default <= max,
    ensures
        match r {
            Ok(n) => n <= max && flag_number(texts(args@), name@, max as nat, default as nat)
                == Ok::<nat, Seq<char>>(n as nat),
            Err(e) => flag_number(texts(args@), name@, max as nat, default as nat) == Err::<
                nat,
                Seq<char>,
            >(e@),
        },
{
    match flag(args, name) {
        None => Ok(default),
        Some(v) => match parse_unsigned(v.as_str(), max) {
            Ok(n) => Ok(n),
            Err(fault) => {
                let mut e = name.to_owned();
                e.append(": ");
                e.append(fault.message());
                Err(e)
            },
        },
    }
}

/// The pieces of a text between commas, where the current piece started at
/// `start` and `i` is next to be looked at.
pub open spec fn comma_pieces(s: Seq<char>, start: int, i: int) -> Seq<Seq<char>>
    decreases s.len() - i,
{
    if i >= s.len() {
        seq![s.subrange(start, s.len() as int)]
    } else if s[i] == ',' {
        seq![s.subrange(start, i)] + comma_pieces(s, i + 1, i + 1)
    } else {
        comma_pieces(s, start, i + 1)
    }
}

/// The first thing wrong with pieces that have to be counts, from the `i`-th
/// on.
pub open spec fn pieces_fault(pieces: Seq<Seq<char>>, max: nat, i: int) -> Option<NumberFault>
    decreases pieces.len() - i,
{
    if i >= pieces.len() {
        None
    } else {
        match number_fault(trimmed(pieces[i]), max) {
            Some(f) => Some(f),
            None => pieces_fault(pieces, max, i + 1),
        }
    }
}

fn split_commas(s: &str) -> (r: Vec<String>)
    ensures
        texts(r@) == comma_pieces(s@, 0, 0),
{
    let v = chars_of(s);
    let n = v.len();
    let mut out: Vec<String> = Vec::new();
    let mut start: usize = 0;
    let mut i: usize = 0;
    let ghost all = comma_pieces(v@, 0, 0);
    assert(texts(out@) + all =~= all);
    while i < n
        invariant
            start <= i <= n,
            n == v@.len(),
            texts(out@) + comma_pieces(v@, start as int, i as int) == all,
        decreases n - i,
    {
        if v[i] == ',' {
            let ghost before = texts(out@);
            let piece = string_of(&v, start, i);
            let ghost p = piece@;
            out.push(piece);
            assert(texts(out@) =~= before.push(p));
            assert(before + (seq![p] + comma_pieces(v@, i + 1, i + 1)) =~= before.push(p)
                + comma_pieces(v@, i + 1, i + 1));
            start = i + 1;
        }
        i = i + 1;
    }
    let ghost before = texts(out@);
    let piece = string_of(&v, start, n);
    let ghost p = piece@;
    out.push(piece);
    assert(texts(out@) =~= before.push(p));
    assert(before + seq![p] =~= before.push(p));
    out
}

/// The counts of a list between commas, or the first thing wrong with it.
pub open spec fn counts_of(s: Seq<char>) -> Result<Seq<nat>, NumberFault> {
    let pieces = comma_pieces(s, 0, 0);
    match pieces_fault(pieces, usize::MAX as nat, 0) {
        Some(fault) => Err(fault),
        None => Ok(
            Seq::new(
                pieces.len(),
                |i: int| number_of(behind_sign(trimmed(pieces[i]), '+')),
            ),
        ),
    }
}

/// Whole numbers, as the numbers they are.
pub open spec fn naturals(v: Seq<usize>) -> Seq<nat> {
    v.map_values(|n: usize| n as nat)
}

/// Reads a list of counts between commas, each with white space around it
/// dropped. The first one that is no number is reported.
pub fn probe_list(s: &str) -> (r: Result<Vec<usize>, NumberFault>)
    ensures
        match r {
            Ok(v) => counts_of(s@) == Ok::<Seq<nat>, NumberFault>(naturals(v@)),
            Err(e) => counts_of(s@) == Err::<Seq<nat>, NumberFault>(e),
        },
{
    let pieces = split_commas(s);
    let ghost all = texts(pieces@);
    assert(all.len() == pieces@.len());
    let mut out: Vec<usize> = Vec::new();
    let mut i: usize = 0;
    while i < pieces.len()
        invariant
            i <= pieces@.len(),
            all == texts(pieces@),
            all == comma_pieces(s@, 0, 0),
            all.len() == pieces@.len(),
            out@.len() == i,
            pieces_fault(all, usize::MAX as nat, 0) == pieces_fault(
                all,
                usize::MAX as nat,
                i as int,
            ),
            forall|k: int|
                0 <= k < i ==> #[trigger] out@[k] == number_of(behind_sign(trimmed(all[k]), '+')),
        decreases pieces@.len() - i,
    {
        assert(all[i as int] == pieces@[i as int]@);
        let bare = trim(pieces[i].as_str());
        match parse_unsigned(bare.as_str(), usize::MAX as u64) {
            Ok(n) => {
                out.push(n as usize);
            },
            Err(fault) => {
                return Err(fault);
            },
        }
        i = i + 1;
    }
    assert(naturals(out@) =~= Seq::new(
        all.len(),
        |k: int| number_of(behind_sign(trimmed(all[k]), '+')),
    ));
    Ok(out)
}

// ---------------------------------------------------------------------------
// What flags give
// ---------------------------------------------------------------------------

/// The value of a flag is the argument behind the first one of its name. A flag
/// that is not there, or stands last, has none.
pub proof fn a_flag_gives_the_argument_behind_it(args: Seq<Seq<char>>, name: Seq<char>, i: int)
    requires
        0 <= i <= args.len(),
        forall|k: int| 0 <= k < i ==> #[trigger] args[k] != name,
        i < args.len() ==> args[i] == name,
    ensures
        i + 1 < args.len() ==> flag_value(args, name) == Some(args[i + 1]),
        i + 1 >= args.len() ==> flag_value(args, name) is None,
{
    flag_search_goes_on(args, name, 0, i);
}

proof fn flag_search_goes_on(args: Seq<Seq<char>>, name: Seq<char>, from: int, i: int)
    requires
        0 <= from <= i <= args.len(),
        forall|k: int| from <= k < i ==> #[trigger] args[k] != name,
    ensures
        flag_place(args, name, from) == flag_place(args, name, i),
    decreases i - from,
{
    if from < i {
        flag_search_goes_on(args, name, from + 1, i);
    }
}

/// A flag with a number gives that number, one without a value gives the
/// default, and one with a number that is too large gives neither.
pub proof fn a_flag_gives_its_number(
    args: Seq<Seq<char>>,
    name: Seq<char>,
    n: nat,
    max: nat,
    default: nat,
)
    ensures
        flag_value(args, name) is None ==> flag_number(args, name, max, default) == Ok::<
            nat,
            Seq<char>,
        >(default),
        flag_value(args, name) == Some(decimal(n)) && n <= max ==> flag_number(
            args,
            name,
            max,
            default,
        ) == Ok::<nat, Seq<char>>(n),
        flag_value(args, name) == Some(decimal(n)) && n > max ==> flag_number(
            args,
            name,
            max,
            default,
        ) is Err,
        flag_number(args, name, max, default) is Err ==> has_prefix(
            flag_number(args, name, max, default)->Err_0,
            name,
        ),
{
    let d = decimal(n);
    decimal_reads_back(n);
    a_text_is_a_number_or_has_a_fault(d, max);
    a_written_number_is_read_back(n, max);
    assert(is_digit(d[0]));
    if flag_number(args, name, max, default) is Err {
        let e = flag_number(args, name, max, default)->Err_0;
        let fault = number_fault(flag_value(args, name)->0, max)->0;
        assert(e == name + ": "@ + fault_text(fault));
        assert(e.take(name.len() as int) =~= name);
    }
}

/// The pieces of a text between commas, with commas between them, are the text
/// again, and no piece holds one.
pub proof fn pieces_are_what_commas_part(s: Seq<char>)
    ensures
        joined(comma_pieces(s, 0, 0), ","@) == s,
        forall|k: int, i: int|
            #![trigger comma_pieces(s, 0, 0)[k][i]]
            0 <= k < comma_pieces(s, 0, 0).len() && 0 <= i < comma_pieces(s, 0, 0)[k].len()
                ==> comma_pieces(s, 0, 0)[k][i] != ',',
{
    pieces_from(s, 0, 0);
    assert(s.skip(0) =~= s);
}

proof fn pieces_from(s: Seq<char>, start: int, i: int)
    requires
        0 <= start <= i <= s.len(),
        forall|k: int| start <= k < i ==> #[trigger] s[k] != ',',
    ensures
        comma_pieces(s, start, i).len() > 0,
        joined(comma_pieces(s, start, i), ","@) == s.skip(start),
        forall|k: int, m: int|
            #![trigger comma_pieces(s, start, i)[k][m]]
            0 <= k < comma_pieces(s, start, i).len() && 0 <= m < comma_pieces(s, start, i)[k].len()
                ==> comma_pieces(s, start, i)[k][m] != ',',
    decreases s.len() - i,
{
    reveal_strlit(",");
    if i >= s.len() {
        let p = s.subrange(start, s.len() as int);
        assert(seq![p].drop_last() =~= Seq::<Seq<char>>::empty());
        reveal_with_fuel(joined, 2);
        assert(joined(seq![p], ","@) =~= p);
        assert(p =~= s.skip(start));
    } else if s[i] == ',' {
        let p = s.subrange(start, i);
        let rest = comma_pieces(s, i + 1, i + 1);
        pieces_from(s, i + 1, i + 1);
        joined_behind_one(p, rest, ","@);
        assert(p + ","@ + s.skip(i + 1) =~= s.skip(start));
        let all = seq![p] + rest;
        assert forall|k: int, m: int|
            #![trigger all[k][m]]
            0 <= k < all.len() && 0 <= m < all[k].len() implies all[k][m] != ',' by {
            if k > 0 {
                assert(all[k] == rest[k - 1]);
                assert(rest[k - 1][m] != ',');
            }
        }
    } else {
        pieces_from(s, start, i + 1);
    }
}

proof fn joined_behind_one(p: Seq<char>, rest: Seq<Seq<char>>, sep: Seq<char>)
    requires
        rest.len() > 0,
    ensures
        joined(seq![p] + rest, sep) == p + sep + joined(rest, sep),
    decreases rest.len(),
{
    let all = seq![p] + rest;
    assert(all.drop_last() =~= seq![p] + rest.drop_last());
    assert(all.last() == rest.last());
    if rest.len() == 1 {
        assert(rest.drop_last() =~= Seq::<Seq<char>>::empty());
        assert(all.drop_last() =~= seq![p]);
        assert(seq![p].drop_last() =~= Seq::<Seq<char>>::empty());
        reveal_with_fuel(joined, 3);
        assert(joined(all, sep) =~= p + sep + joined(rest, sep));
    } else {
        joined_behind_one(p, rest.drop_last(), sep);
        assert(joined(all, sep) =~= p + sep + joined(rest, sep));
    }
}

/// A list of counts is read where every piece is one, and then piece by piece;
/// else the fault is that of the first piece that is none.
pub proof fn a_list_is_read_piece_by_piece(s: Seq<char>) -> (i: int)
    ensures
        ({
            let pieces = comma_pieces(s, 0, 0);
            let max = usize::MAX as nat;
            match counts_of(s) {
                Ok(v) => {
                    &&& v.len() == pieces.len()
                    &&& forall|k: int|
                        0 <= k < v.len() ==> unsigned_of(trimmed(#[trigger] pieces[k]), max) == Some(
                            v[k],
                        )
                },
                Err(fault) => {
                    &&& 0 <= i < pieces.len()
                    &&& number_fault(trimmed(pieces[i]), max) == Some(fault)
                    &&& forall|k: int|
                        0 <= k < i ==> unsigned_of(trimmed(#[trigger] pieces[k]), max) is Some
                },
            }
        }),
{
    let pieces = comma_pieces(s, 0, 0);
    let max = usize::MAX as nat;
    let i = first_bad_piece(pieces, max, 0);
    assert forall|k: int| 0 <= k < pieces.len() && number_fault(
        trimmed(#[trigger] pieces[k]),
        max,
    ) is None implies unsigned_of(trimmed(pieces[k]), max) == Some(
        number_of(behind_sign(trimmed(pieces[k]), '+')),
    ) by {
        a_text_is_a_number_or_has_a_fault(trimmed(pieces[k]), max);
    }
    i
}

proof fn first_bad_piece(pieces: Seq<Seq<char>>, max: nat, from: int) -> (i: int)
    requires
        0 <= from <= pieces.len(),
    ensures
        from <= i <= pieces.len(),
        forall|k: int| from <= k < i ==> number_fault(trimmed(#[trigger] pieces[k]), max) is None,
        i < pieces.len() ==> number_fault(trimmed(pieces[i]), max) is Some && pieces_fault(
            pieces,
            max,
            from,
        ) == number_fault(trimmed(pieces[i]), max),
        i == pieces.len() ==> pieces_fault(pieces, max, from) is None,
    decreases pieces.len() - from,
{
    if from == pieces.len() || number_fault(trimmed(pieces[from]), max) is Some {
        from
    } else {
        first_bad_piece(pieces, max, from + 1)
    }
}

} // verus!
