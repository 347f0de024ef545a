//! General laws of the reader, each proved against [`crate::reader::spec_read`],
//! the specification that [`crate::reader::Reader::read`] is bound to.

use vstd::prelude::*;

use crate::digits::all_digits;
use crate::digits::digits_value;
use crate::digits::is_digit;
use crate::digits::spec_parse_usize;
use crate::error::Error;
use crate::error::ErrorModel;
use crate::param_type::classify_tuple;
use crate::param_type::forces_dynamic;
use crate::param_type::ParamType;
use crate::param_type::TypeModel;
use crate::reader::has_prefix;
use crate::reader::kw_address;
use crate::reader::kw_bool;
use crate::reader::kw_bytes;
use crate::reader::kw_int;
use crate::reader::kw_string;
use crate::reader::kw_uint;
use crate::reader::lemma_scan_num_start;
use crate::reader::lemma_scan_num_start_run;
use crate::reader::num_start;
use crate::reader::result_model;
use crate::reader::spec_read;
use crate::reader::spec_read_tuple;
use crate::reader::tuple_open_at;
use crate::reader::MAX_NESTING;

verus! {

/// Two character sequences that differ at one position differ.
proof fn lemma_seq_ne_at(a: Seq<char>, b: Seq<char>, i: int)
    requires
        0 <= i < a.len(),
        0 <= i < b.len(),
        a[i] != b[i],
    ensures
        a != b,
{
    assert(a == b ==> a[i] == b[i]);
}

/// Reading an atom keyword yields exactly the corresponding leaf, and the
/// bare `int` and `uint` keywords default to a width of 256 bits.
pub proof fn lemma_read_atom_keywords(depth: nat)
    requires
        depth >= 1,
    ensures
        spec_read(kw_address(), depth) == Ok::<TypeModel, ErrorModel>(TypeModel::Address),
        spec_read(kw_bytes(), depth) == Ok::<TypeModel, ErrorModel>(TypeModel::Bytes),
        spec_read(kw_bool(), depth) == Ok::<TypeModel, ErrorModel>(TypeModel::Bool),
        spec_read(kw_string(), depth) == Ok::<TypeModel, ErrorModel>(TypeModel::String),
        spec_read(kw_int(), depth) == Ok::<TypeModel, ErrorModel>(TypeModel::Int(256)),
        spec_read(kw_uint(), depth) == Ok::<TypeModel, ErrorModel>(TypeModel::Uint(256)),
{
    assert(kw_address().last() == 's');
    assert(kw_bytes().last() == 's');
    assert(kw_bool().last() == 'l');
    assert(kw_string().last() == 'g');
    assert(kw_int().last() == 't');
    assert(kw_uint().last() == 't');
    lemma_seq_ne_at(kw_bytes(), kw_address(), 0);
    lemma_seq_ne_at(kw_bool(), kw_address(), 0);
    lemma_seq_ne_at(kw_string(), kw_address(), 0);
    lemma_seq_ne_at(kw_uint(), kw_bool(), 0);
}

/// A width-suffixed keyword reads as the corresponding leaf carrying the
/// value of the suffix: `bytes<d>` as `FixedBytes`, `int<d>` as `Int` and
/// `uint<d>` as `Uint`, for every run of digits `d` whose value fits in
/// `usize`.
pub proof fn lemma_read_width_suffix(d: Seq<char>, depth: nat)
    requires
        depth >= 1,
        d.len() > 0,
        all_digits(d),
        digits_value(d) <= usize::MAX,
    ensures
        spec_read(kw_bytes() + d, depth) == Ok::<TypeModel, ErrorModel>(
            TypeModel::FixedBytes(digits_value(d)),
        ),
        spec_read(kw_int() + d, depth) == Ok::<TypeModel, ErrorModel>(
            TypeModel::Int(digits_value(d)),
        ),
        spec_read(kw_uint() + d, depth) == Ok::<TypeModel, ErrorModel>(
            TypeModel::Uint(digits_value(d)),
        ),
{
    assert(is_digit(d.last()));
    let sb = kw_bytes() + d;
    assert(sb.last() == d.last());
    assert(sb.last() != ']' && sb.last() != ')');
    lemma_seq_ne_at(sb, kw_address(), 0);
    lemma_seq_ne_at(sb, kw_bool(), 1);
    lemma_seq_ne_at(sb, kw_string(), 0);
    lemma_seq_ne_at(sb, kw_int(), 0);
    lemma_seq_ne_at(sb, kw_uint(), 0);
    assert(sb != kw_bytes());
    assert(sb.take(3)[0] == 'b');
    lemma_seq_ne_at(sb.take(3), kw_int(), 0);
    assert(!has_prefix(sb, kw_int()));
    assert(sb.take(4)[0] == 'b');
    lemma_seq_ne_at(sb.take(4), kw_uint(), 0);
    assert(!has_prefix(sb, kw_uint()));
    assert(sb.take(5) =~= kw_bytes());
    assert(sb.skip(5) =~= d);
    assert(spec_parse_usize(sb.skip(5)) == Some(digits_value(d)));

    let si = kw_int() + d;
    assert(si.last() == d.last());
    assert(si.last() != ']' && si.last() != ')');
    lemma_seq_ne_at(si, kw_address(), 0);
    lemma_seq_ne_at(si, kw_bytes(), 0);
    lemma_seq_ne_at(si, kw_bool(), 0);
    lemma_seq_ne_at(si, kw_string(), 0);
    assert(si != kw_int());
    if si.len() == kw_uint().len() {
        lemma_seq_ne_at(si, kw_uint(), 0);
    }
    assert(si.take(3) =~= kw_int());
    assert(si.skip(3) =~= d);

    let su = kw_uint() + d;
    assert(su.last() == d.last());
    assert(su.last() != ']' && su.last() != ')');
    lemma_seq_ne_at(su, kw_address(), 0);
    lemma_seq_ne_at(su, kw_bytes(), 0);
    lemma_seq_ne_at(su, kw_bool(), 0);
    lemma_seq_ne_at(su, kw_string(), 0);
    if su.len() == kw_int().len() {
        lemma_seq_ne_at(su, kw_int(), 0);
    }
    assert(su != kw_uint());
    assert(su.take(3)[0] == 'u');
    lemma_seq_ne_at(su.take(3), kw_int(), 0);
    assert(!has_prefix(su, kw_int()));
    assert(su.take(4) =~= kw_uint());
    assert(su.skip(4) =~= d);
}

/// Appending `[]` to any text reads as the dynamic array of whatever the
/// text itself reads as, one nesting level deeper; an error in the element
/// text propagates unchanged.
pub proof fn lemma_read_array_suffix(t: Seq<char>, depth: nat)
    requires
        depth >= 1,
    ensures
        spec_read(t + seq!['[', ']'], depth) == (match spec_read(t, (depth - 1) as nat) {
            Ok(m) => Ok::<TypeModel, ErrorModel>(TypeModel::Array(Box::new(m))),
            Err(e) => Err(e),
        }),
{
    let s = t + seq!['[', ']'];
    assert(s.last() == ']');
    assert(s[s.len() - 2] == '[');
    assert(s.take(s.len() - 2) =~= t);
}

/// Appending `[<d>]` to any text reads as the fixed array of whatever the
/// text itself reads as, with the value of the digit run `d` as its
/// length, one nesting level deeper; an error in the element text
/// propagates unchanged.
pub proof fn lemma_read_fixed_array_suffix(t: Seq<char>, d: Seq<char>, depth: nat)
    requires
        depth >= 1,
        d.len() > 0,
        all_digits(d),
        digits_value(d) <= usize::MAX,
    ensures
        spec_read(t + seq!['['] + d + seq![']'], depth) == (match spec_read(
            t,
            (depth - 1) as nat,
        ) {
            Ok(m) => Ok::<TypeModel, ErrorModel>(
                TypeModel::FixedArray(Box::new(m), digits_value(d)),
            ),
            Err(e) => Err(e),
        }),
{
    let s = t + seq!['['] + d + seq![']'];
    let a = t.len() + 1int;
    assert(s.last() == ']');
    assert(s[a - 1] == '[');
    assert forall|j: int| a <= j < s.len() - 1 implies s[j] != '[' by {
        assert(s[j] == d[j - a]);
        assert(is_digit(d[j - a]));
    }
    lemma_scan_num_start_run(s, a, s.len() - 1);
    assert(s.subrange(a, s.len() - 1) =~= d);
    assert(spec_parse_usize(s.subrange(a, s.len() - 1)) == Some(digits_value(d)));
    assert(s.take(a - 1) =~= t);
}

/// Nesting levels beyond those a successful reading spends change
/// nothing: a text read successfully with `depth` levels reads the same
/// with one more.
pub proof fn lemma_read_fuel_mono(s: Seq<char>, depth: nat)
    requires
        spec_read(s, depth) is Ok,
    ensures
        spec_read(s, depth + 1) == spec_read(s, depth),
    decreases s.len(), s.len() + 2int,
{
    if depth == 0 {
        // a zero budget only ever errors
    } else if s.len() > 0 && s.last() == ']' {
        lemma_scan_num_start(s, s.len() - 1);
        let ns = num_start(s);
        if ns == s.len() - 1 {
            if s.len() >= 2 {
                lemma_read_fuel_mono(s.take(s.len() - 2), (depth - 1) as nat);
            }
        } else {
            let num = s.subrange(ns, s.len() - 1);
            if spec_parse_usize(num) is Some && ns != 0 {
                lemma_read_fuel_mono(s.take(ns - 1), (depth - 1) as nat);
            }
        }
    } else if s.len() > 0 && s.last() == ')' {
        if tuple_open_at(s, 0) {
            lemma_read_tuple_fuel_mono(s, 6, 1, 6, Seq::empty(), (depth - 1) as nat);
        }
    }
}

/// The member scan spends its levels the same way: a scan that ends in a
/// tuple with `depth` levels for its members ends in the same tuple with
/// one more.
pub proof fn lemma_read_tuple_fuel_mono(
    s: Seq<char>,
    pos: nat,
    nested: nat,
    start: nat,
    acc: Seq<TypeModel>,
    depth: nat,
)
    requires
        spec_read_tuple(s, pos, nested, start, acc, depth) is Ok,
    ensures
        spec_read_tuple(s, pos, nested, start, acc, depth + 1) == spec_read_tuple(
            s,
            pos,
            nested,
            start,
            acc,
            depth,
        ),
    decreases s.len(), s.len() - pos,
{
    if pos >= s.len() {
        // the scan errored; nothing to relate
    } else if tuple_open_at(s, pos as int) {
        lemma_read_tuple_fuel_mono(s, pos + 6, nested + 1, start, acc, depth);
    } else if s[pos as int] == ')' {
        if nested == 1 {
            if pos + 1 == s.len() && !(acc.len() == 0 && start == pos) && start <= pos {
                lemma_read_fuel_mono(s.subrange(start as int, pos as int), depth);
            }
        } else {
            lemma_read_tuple_fuel_mono(s, pos + 1, (nested - 1) as nat, start, acc, depth);
        }
    } else if s[pos as int] == ',' && nested == 1 {
        if start <= pos {
            lemma_read_fuel_mono(s.subrange(start as int, pos as int), depth);
            match spec_read(s.subrange(start as int, pos as int), depth) {
                Ok(t) => {
                    lemma_read_tuple_fuel_mono(s, pos + 1, 1, pos + 1, acc.push(t), depth);
                },
                Err(_) => {},
            }
        }
    } else {
        lemma_read_tuple_fuel_mono(s, pos + 1, nested, start, acc, depth);
    }
}

/// At the reader's own budget: a text `T` that reads successfully within
/// one level less than [`MAX_NESTING`] reads the same at the full budget,
/// `T[]` reads as the dynamic array of it, and `T[<d>]` as the fixed
/// array of it with the value of the digit run `d` as length.
pub proof fn lemma_read_array_of_valid(t: Seq<char>, m: TypeModel, d: Seq<char>)
    requires
        spec_read(t, (MAX_NESTING - 1) as nat) == Ok::<TypeModel, ErrorModel>(m),
        d.len() > 0,
        all_digits(d),
        digits_value(d) <= usize::MAX,
    ensures
        spec_read(t, MAX_NESTING as nat) == Ok::<TypeModel, ErrorModel>(m),
        spec_read(t + seq!['[', ']'], MAX_NESTING as nat) == Ok::<TypeModel, ErrorModel>(
            TypeModel::Array(Box::new(m)),
        ),
        spec_read(t + seq!['['] + d + seq![']'], MAX_NESTING as nat) == Ok::<
            TypeModel,
            ErrorModel,
        >(TypeModel::FixedArray(Box::new(m), digits_value(d))),
{
    lemma_read_fuel_mono(t, (MAX_NESTING - 1) as nat);
    lemma_read_array_suffix(t, MAX_NESTING as nat);
    lemma_read_fixed_array_suffix(t, d, MAX_NESTING as nat);
}

/// How a tuple is classified is a pure function of its members: one
/// dynamic member — `Bytes`, `String`, an `Array` or a `Tuple` — forces
/// the `Tuple` variant, and with none the tuple is a `FixedTuple`.  A
/// nested `FixedTuple` member, like a `FixedArray` or any other static
/// member, never forces the outer tuple dynamic; a nested `Tuple` member
/// always does.
pub proof fn lemma_tuple_classification(ms: Seq<TypeModel>)
    ensures
        (forall|i: int| 0 <= i < ms.len() ==> !forces_dynamic(ms[i])) ==> classify_tuple(ms)
            == TypeModel::FixedTuple(ms),
        (exists|i: int| 0 <= i < ms.len() && forces_dynamic(ms[i])) ==> classify_tuple(ms)
            == TypeModel::Tuple(ms),
        forall|i: int| 0 <= i < ms.len() && ms[i] is FixedTuple ==> !forces_dynamic(ms[i]),
        forall|i: int| 0 <= i < ms.len() && ms[i] is FixedArray ==> !forces_dynamic(ms[i]),
        forall|i: int| 0 <= i < ms.len() && ms[i] is Tuple ==> forces_dynamic(ms[i]),
        forall|i: int| 0 <= i < ms.len() && ms[i] is Array ==> forces_dynamic(ms[i]),
{
}

/// Reading is deterministic: two results that both satisfy the reader's
/// contract for the same text are the same tree, or carry the same error.
pub proof fn lemma_read_deterministic(
    r1: Result<ParamType, Error>,
    r2: Result<ParamType, Error>,
    s: Seq<char>,
    depth: nat,
)
    requires
        result_model(r1) == spec_read(s, depth),
        result_model(r2) == spec_read(s, depth),
    ensures
        result_model(r1) == result_model(r2),
{
}

} // verus!
