//! The signature reader: the grammar as specification functions, and the
//! recursive-descent parser proved to follow them.

use vstd::prelude::*;
use vstd::string::StrSliceExecFns;

use crate::digits::parse_usize;
use crate::digits::spec_parse_usize;
use crate::error::Error;
use crate::error::ErrorModel;
use crate::param_type::classify_tuple;
use crate::param_type::is_dynamic_member;
use crate::param_type::forces_dynamic;
use crate::param_type::lemma_models_of_push;
use crate::param_type::models_of;
use crate::param_type::ParamType;
use crate::param_type::TypeModel;

verus! {

/// How many levels of arrays and tuples the reader is willing to descend
/// into.  Deeper input is refused with [`Error::NestingTooDeep`] instead of
/// being recursed into without bound.
pub const MAX_NESTING: usize = 1024;

/// The characters of the keyword `address`.
pub open spec fn kw_address() -> Seq<char> {
    seq!['a', 'd', 'd', 'r', 'e', 's', 's']
}

/// The characters of the keyword `bytes`.
pub open spec fn kw_bytes() -> Seq<char> {
    seq!['b', 'y', 't', 'e', 's']
}

/// The characters of the keyword `bool`.
pub open spec fn kw_bool() -> Seq<char> {
    seq!['b', 'o', 'o', 'l']
}

/// The characters of the keyword `string`.
pub open spec fn kw_string() -> Seq<char> {
    seq!['s', 't', 'r', 'i', 'n', 'g']
}

/// The characters of the keyword `int`.
pub open spec fn kw_int() -> Seq<char> {
    seq!['i', 'n', 't']
}

/// The characters of the keyword `uint`.
pub open spec fn kw_uint() -> Seq<char> {
    seq!['u', 'i', 'n', 't']
}

/// Whether `p` is a prefix of `s`.
pub open spec fn has_prefix(s: Seq<char>, p: Seq<char>) -> bool {
    p.len() <= s.len() && s.take(p.len() as int) == p
}

/// Whether the literal `tuple(` stands at position `pos` of `s`.
pub open spec fn tuple_open_at(s: Seq<char>, pos: int) -> bool {
    &&& 0 <= pos
    &&& pos + 6 <= s.len()
    &&& s[pos] == 't'
    &&& s[pos + 1] == 'u'
    &&& s[pos + 2] == 'p'
    &&& s[pos + 3] == 'l'
    &&& s[pos + 4] == 'e'
    &&& s[pos + 5] == '('
}

/// What an atom denotes: one of the exact keywords, or a keyword followed
/// by a base-10 width.  `int` and `uint` without a width default to 256
/// bits.  Any other text is an unknown name.
pub open spec fn spec_atom(s: Seq<char>) -> Result<TypeModel, ErrorModel> {
    if s == kw_address() {
        Ok(TypeModel::Address)
    } else if s == kw_bytes() {
        Ok(TypeModel::Bytes)
    } else if s == kw_bool() {
        Ok(TypeModel::Bool)
    } else if s == kw_string() {
        Ok(TypeModel::String)
    } else if s == kw_int() {
        Ok(TypeModel::Int(256))
    } else if s == kw_uint() {
        Ok(TypeModel::Uint(256))
    } else if has_prefix(s, kw_int()) {
        match spec_parse_usize(s.skip(3)) {
            Some(v) => Ok(TypeModel::Int(v)),
            None => Err(ErrorModel::InvalidNumber(s.skip(3))),
        }
    } else if has_prefix(s, kw_uint()) {
        match spec_parse_usize(s.skip(4)) {
            Some(v) => Ok(TypeModel::Uint(v)),
            None => Err(ErrorModel::InvalidNumber(s.skip(4))),
        }
    } else if has_prefix(s, kw_bytes()) {
        match spec_parse_usize(s.skip(5)) {
            Some(v) => Ok(TypeModel::FixedBytes(v)),
            None => Err(ErrorModel::InvalidNumber(s.skip(5))),
        }
    } else {
        Err(ErrorModel::InvalidName(s))
    }
}

/// Where the run of characters between the final `]` of `s` and its
/// matching `[` begins, scanning leftwards from position `i - 1`: the
/// first position whose left neighbour is `[`, or 0 when no `[` occurs.
pub open spec fn scan_num_start(s: Seq<char>, i: int) -> int
    decreases i,
{
    if i <= 0 {
        0
    } else if s[i - 1] == '[' {
        i
    } else {
        scan_num_start(s, i - 1)
    }
}

/// Where the length run of an array suffix begins: just after the `[`
/// that matches the final `]` of `s`.
pub open spec fn num_start(s: Seq<char>) -> int {
    scan_num_start(s, s.len() - 1)
}

/// `scan_num_start` lands within bounds, just right of a `[`, and no `[`
/// stands between the position it returns and `i`.
pub proof fn lemma_scan_num_start(s: Seq<char>, i: int)
    requires
        0 <= i,
    ensures
        0 <= scan_num_start(s, i) <= i,
        scan_num_start(s, i) > 0 ==> s[scan_num_start(s, i) - 1] == '[',
        forall|j: int| scan_num_start(s, i) <= j < i ==> s[j] != '[',
    decreases i,
{
    if i > 0 && s[i - 1] != '[' {
        lemma_scan_num_start(s, i - 1);
    }
}

/// `scan_num_start` is determined by the run itself: a stretch free of `[`
/// that begins at `a`, either at the start of `s` or just right of a `[`,
/// scans back exactly to `a`.
pub proof fn lemma_scan_num_start_run(s: Seq<char>, a: int, i: int)
    requires
        0 <= a <= i,
        a == 0 || s[a - 1] == '[',
        forall|j: int| a <= j < i ==> s[j] != '[',
    ensures
        scan_num_start(s, i) == a,
    decreases i - a,
{
    if i > a {
        lemma_scan_num_start_run(s, a, i - 1);
    }
}

/// What reading a signature yields, with `depth` nesting levels to spend.
///
/// The final character alone dispatches: `]` to the array suffix, `)` to
/// the tuple rule (which demands the literal `tuple(` opener), anything
/// else to the atom rule.  Reading `T[]` wraps the reading of `T` in
/// `Array`; `T[n]` wraps it in `FixedArray` with length `n`; errors of the
/// element, like those of tuple members, propagate unchanged.
pub open spec fn spec_read(s: Seq<char>, depth: nat) -> Result<TypeModel, ErrorModel>
    decreases s.len(), s.len() + 2int,
    via spec_read_decreases
{
    if depth == 0 {
        Err(ErrorModel::NestingTooDeep)
    } else if s.len() > 0 && s.last() == ']' {
        let ns = num_start(s);
        if ns == s.len() - 1 {
            // nothing between `[` and `]`: a dynamic array
            if s.len() >= 2 {
                match spec_read(s.take(s.len() - 2), (depth - 1) as nat) {
                    Ok(t) => Ok(TypeModel::Array(Box::new(t))),
                    Err(e) => Err(e),
                }
            } else {
                // a lone `]`
                Err(ErrorModel::InvalidName(s))
            }
        } else {
            let num = s.subrange(ns, s.len() - 1);
            match spec_parse_usize(num) {
                None => Err(ErrorModel::InvalidNumber(num)),
                Some(v) => {
                    if ns == 0 {
                        // a length run with no `[` before it
                        Err(ErrorModel::InvalidName(s))
                    } else {
                        match spec_read(s.take(ns - 1), (depth - 1) as nat) {
                            Ok(t) => Ok(TypeModel::FixedArray(Box::new(t), v)),
                            Err(e) => Err(e),
                        }
                    }
                },
            }
        }
    } else if s.len() > 0 && s.last() == ')' {
        if tuple_open_at(s, 0) {
            spec_read_tuple(s, 6, 1, 6, Seq::empty(), (depth - 1) as nat)
        } else {
            Err(ErrorModel::InvalidName(s))
        }
    } else {
        spec_atom(s)
    }
}

#[via_fn]
proof fn spec_read_decreases(s: Seq<char>, depth: nat) {
    if s.len() > 0 && s.last() == ']' {
        lemma_scan_num_start(s, s.len() - 1);
    }
}

/// What scanning the interior of a tuple yields, from position `pos` of
/// `s`, at nesting level `nested`, with the member begun at `start` and
/// the members read so far in `acc`, each member read with `depth` levels.
///
/// Each occurrence of the literal `tuple(` raises the nesting level and
/// each `)` lowers it; a comma at level 1 ends a member, and the `)` that
/// returns the level to 0 must be the final character and ends the last
/// member.  An interior gone by without that `)` is an unterminated tuple.
/// `tuple()` has no members at all.
pub open spec fn spec_read_tuple(
    s: Seq<char>,
    pos: nat,
    nested: nat,
    start: nat,
    acc: Seq<TypeModel>,
    depth: nat,
) -> Result<TypeModel, ErrorModel>
    decreases s.len(), s.len() - pos,
{
    if pos >= s.len() {
        Err(ErrorModel::InvalidName(s))
    } else if tuple_open_at(s, pos as int) {
        spec_read_tuple(s, pos + 6, nested + 1, start, acc, depth)
    } else if s[pos as int] == ')' {
        if nested == 1 {
            if pos + 1 == s.len() {
                if acc.len() == 0 && start == pos {
                    Ok(classify_tuple(acc))
                } else if start <= pos {
                    match spec_read(s.subrange(start as int, pos as int), depth) {
                        Ok(t) => Ok(classify_tuple(acc.push(t))),
                        Err(e) => Err(e),
                    }
                } else {
                    Err(ErrorModel::InvalidName(s))
                }
            } else {
                // text after the parenthesis that closes the tuple
                Err(ErrorModel::InvalidName(s))
            }
        } else {
            spec_read_tuple(s, pos + 1, (nested - 1) as nat, start, acc, depth)
        }
    } else if s[pos as int] == ',' && nested == 1 {
        if start <= pos {
            match spec_read(s.subrange(start as int, pos as int), depth) {
                Ok(t) => spec_read_tuple(s, pos + 1, 1, pos + 1, acc.push(t), depth),
                Err(e) => Err(e),
            }
        } else {
            Err(ErrorModel::InvalidName(s))
        }
    } else {
        spec_read_tuple(s, pos + 1, nested, start, acc, depth)
    }
}

/// The model of a reader result: the model of the tree or of the error.
pub open spec fn result_model(r: Result<ParamType, Error>) -> Result<TypeModel, ErrorModel> {
    match r {
        Ok(t) => Ok(t@),
        Err(e) => Err(e@),
    }
}

/// Used to convert a param type represented as a string to a Rust structure.
pub struct Reader;

impl Reader {
    /// Converts a textual type signature to a [`ParamType`] tree.
    ///
    /// The result is exactly what [`spec_read`] states for the text, with
    /// [`MAX_NESTING`] levels to spend: the type tree the grammar gives
    /// the text, or the first error the grammar finds in it.
    pub fn read(name: &str) -> (r: Result<ParamType, Error>)
        ensures
            result_model(r) == spec_read(name@, MAX_NESTING as nat),
    {
        read_nested(name, MAX_NESTING)
    }
}

/// One level of the reader: dispatches on the final character of `name`
/// and recurses on element and member substrings with one level fewer.
fn read_nested(name: &str, depth: usize) -> (r: Result<ParamType, Error>)
    ensures
        result_model(r) == spec_read(name@, depth as nat),
    decreases name@.len(),
{
    if depth == 0 {
        return Err(Error::NestingTooDeep);
    }
    let n = name.unicode_len();
    if n == 0 {
        return read_atom(name);
    }
    let last = name.get_char(n - 1);
    if last == ']' {
        // array suffix: find where the length run after the `[` begins
        let mut i: usize = n - 1;
        while i > 0 && name.get_char(i - 1) != '['
            invariant
                0 <= i <= n - 1,
                n == name@.len(),
                num_start(name@) == scan_num_start(name@, i as int),
            decreases i,
        {
            i -= 1;
        }
        proof {
            assert(num_start(name@) == i);
        }
        if i == n - 1 {
            // nothing between `[` and `]`: a dynamic array
            if n >= 2 {
                let sub = name.substring_char(0, n - 2);
                match read_nested(sub, depth - 1) {
                    Ok(t) => Ok(ParamType::Array(Box::new(t))),
                    Err(e) => Err(e),
                }
            } else {
                Err(Error::InvalidName(name.to_owned()))
            }
        } else {
            match parse_usize(name, i, n - 1) {
                None => {
                    let num = name.substring_char(i, n - 1);
                    Err(Error::InvalidNumber(num.to_owned()))
                },
                Some(v) => {
                    if i == 0 {
                        Err(Error::InvalidName(name.to_owned()))
                    } else {
                        let sub = name.substring_char(0, i - 1);
                        match read_nested(sub, depth - 1) {
                            Ok(t) => Ok(ParamType::FixedArray(Box::new(t), v)),
                            Err(e) => Err(e),
                        }
                    }
                },
            }
        }
    } else if last == ')' {
        if !tuple_open_here(name, n, 0) {
            return Err(Error::InvalidName(name.to_owned()));
        }
        let ghost s = name@;
        let ghost dm = (depth - 1) as nat;
        let mut pos: usize = 6;
        let mut nested: usize = 1;
        let mut start: usize = 6;
        let mut members: Vec<ParamType> = Vec::new();
        let mut dynamic: bool = false;
        while pos < n
            invariant
                s == name@,
                n == s.len(),
                1 <= depth,
                dm == (depth - 1) as nat,
                6 <= start <= pos <= n,
                1 <= nested <= pos,
                spec_read(s, depth as nat) == spec_read_tuple(s, 6, 1, 6, Seq::empty(), dm),
                spec_read_tuple(s, pos as nat, nested as nat, start as nat, models_of(members@), dm)
                    == spec_read_tuple(s, 6, 1, 6, Seq::empty(), dm),
                models_of(members@).len() == members@.len(),
                dynamic == exists|k: int|
                    0 <= k < models_of(members@).len() && forces_dynamic(models_of(members@)[k]),
            decreases n - pos,
        {
            if tuple_open_here(name, n, pos) {
                nested = nested + 1;
                pos = pos + 6;
            } else {
                let c = name.get_char(pos);
                if c == ')' {
                    if nested == 1 {
                        if pos == n - 1 {
                            if members.len() == 0 && start == pos {
                                proof {
                                    assert(models_of(members@) =~= Seq::<TypeModel>::empty());
                                }
                                return Ok(ParamType::FixedTuple(members));
                            }
                            let sub = name.substring_char(start, pos);
                            match read_nested(sub, depth - 1) {
                                Ok(t) => {
                                    let ghost m0 = models_of(members@);
                                    proof {
                                        lemma_models_of_push(members@, t);
                                    }
                                    let whole_dynamic = dynamic || is_dynamic_member(&t);
                                    members.push(t);
                                    proof {
                                        let m1 = models_of(members@);
                                        assert(m1 == m0.push(t@));
                                        if whole_dynamic {
                                            if dynamic {
                                                let k = choose|k: int|
                                                    0 <= k < m0.len() && forces_dynamic(m0[k]);
                                                assert(m1[k] == m0[k]);
                                                assert(forces_dynamic(m1[k]));
                                            } else {
                                                assert(m1[m0.len() as int] == t@);
                                                assert(forces_dynamic(m1[m0.len() as int]));
                                            }
                                            assert(classify_tuple(m1) == TypeModel::Tuple(m1));
                                        } else {
                                            assert forall|k: int|
                                                0 <= k < m1.len() implies !forces_dynamic(
                                                m1[k],
                                            ) by {
                                                if k < m0.len() {
                                                    assert(m1[k] == m0[k]);
                                                } else {
                                                    assert(m1[k] == t@);
                                                }
                                            }
                                            assert(classify_tuple(m1) == TypeModel::FixedTuple(m1));
                                        }
                                    }
                                    if whole_dynamic {
                                        return Ok(ParamType::Tuple(members));
                                    } else {
                                        return Ok(ParamType::FixedTuple(members));
                                    }
                                },
                                Err(e) => return Err(e),
                            }
                        } else {
                            return Err(Error::InvalidName(name.to_owned()));
                        }
                    } else {
                        nested = nested - 1;
                        pos = pos + 1;
                    }
                } else if c == ',' && nested == 1 {
                    let sub = name.substring_char(start, pos);
                    match read_nested(sub, depth - 1) {
                        Ok(t) => {
                            let ghost m0 = models_of(members@);
                            let ghost was_dynamic = dynamic;
                            proof {
                                lemma_models_of_push(members@, t);
                            }
                            dynamic = dynamic || is_dynamic_member(&t);
                            members.push(t);
                            proof {
                                let m1 = models_of(members@);
                                assert(m1 == m0.push(t@));
                                if was_dynamic {
                                    let k = choose|k: int|
                                        0 <= k < m0.len() && forces_dynamic(m0[k]);
                                    assert(m1[k] == m0[k]);
                                    assert(forces_dynamic(m1[k]));
                                } else if forces_dynamic(t@) {
                                    assert(m1[m0.len() as int] == t@);
                                    assert(forces_dynamic(m1[m0.len() as int]));
                                } else {
                                    assert forall|k: int|
                                        0 <= k < m1.len() implies !forces_dynamic(m1[k]) by {
                                        if k < m0.len() {
                                            assert(m1[k] == m0[k]);
                                        } else {
                                            assert(m1[k] == t@);
                                        }
                                    }
                                }
                            }
                            start = pos + 1;
                            pos = pos + 1;
                        },
                        Err(e) => return Err(e),
                    }
                } else {
                    pos = pos + 1;
                }
            }
        }
        Err(Error::InvalidName(name.to_owned()))
    } else {
        read_atom(name)
    }
}

/// Whether the literal `tuple(` stands at position `pos` of `name`.
fn tuple_open_here(name: &str, n: usize, pos: usize) -> (b: bool)
    requires
        n == name@.len(),
        pos <= n,
    ensures
        b == tuple_open_at(name@, pos as int),
{
    n - pos >= 6 && name.get_char(pos) == 't' && name.get_char(pos + 1) == 'u' && name.get_char(
        pos + 2,
    ) == 'p' && name.get_char(pos + 3) == 'l' && name.get_char(pos + 4) == 'e' && name.get_char(
        pos + 5,
    ) == '('
}

/// Reads an atom: an exact keyword, or `int`, `uint` or `bytes` followed
/// by a base-10 width.
fn read_atom(name: &str) -> (r: Result<ParamType, Error>)
    ensures
        result_model(r) == spec_atom(name@),
{
    let n = name.unicode_len();
    if n == 7 && name.get_char(0) == 'a' && name.get_char(1) == 'd' && name.get_char(2) == 'd'
        && name.get_char(3) == 'r' && name.get_char(4) == 'e' && name.get_char(5) == 's'
        && name.get_char(6) == 's' {
        proof {
            assert(name@ =~= kw_address());
        }
        return Ok(ParamType::Address);
    }
    if n == 5 && name.get_char(0) == 'b' && name.get_char(1) == 'y' && name.get_char(2) == 't'
        && name.get_char(3) == 'e' && name.get_char(4) == 's' {
        proof {
            assert(name@ =~= kw_bytes());
        }
        return Ok(ParamType::Bytes);
    }
    if n == 4 && name.get_char(0) == 'b' && name.get_char(1) == 'o' && name.get_char(2) == 'o'
        && name.get_char(3) == 'l' {
        proof {
            assert(name@ =~= kw_bool());
        }
        return Ok(ParamType::Bool);
    }
    if n == 6 && name.get_char(0) == 's' && name.get_char(1) == 't' && name.get_char(2) == 'r'
        && name.get_char(3) == 'i' && name.get_char(4) == 'n' && name.get_char(5) == 'g' {
        proof {
            assert(name@ =~= kw_string());
        }
        return Ok(ParamType::String);
    }
    if n == 3 && name.get_char(0) == 'i' && name.get_char(1) == 'n' && name.get_char(2) == 't' {
        proof {
            assert(name@ =~= kw_int());
        }
        return Ok(ParamType::Int(256));
    }
    if n == 4 && name.get_char(0) == 'u' && name.get_char(1) == 'i' && name.get_char(2) == 'n'
        && name.get_char(3) == 't' {
        proof {
            assert(name@ =~= kw_uint());
        }
        return Ok(ParamType::Uint(256));
    }
    if n >= 3 && name.get_char(0) == 'i' && name.get_char(1) == 'n' && name.get_char(2) == 't' {
        proof {
            assert(name@.take(3) =~= kw_int());
            assert(name@.subrange(3, n as int) =~= name@.skip(3));
        }
        return match parse_usize(name, 3, n) {
            Some(v) => Ok(ParamType::Int(v)),
            None => Err(Error::InvalidNumber(name.substring_char(3, n).to_owned())),
        };
    }
    if n >= 4 && name.get_char(0) == 'u' && name.get_char(1) == 'i' && name.get_char(2) == 'n'
        && name.get_char(3) == 't' {
        proof {
            assert(name@.take(4) =~= kw_uint());
            assert(name@.subrange(4, n as int) =~= name@.skip(4));
        }
        return match parse_usize(name, 4, n) {
            Some(v) => Ok(ParamType::Uint(v)),
            None => Err(Error::InvalidNumber(name.substring_char(4, n).to_owned())),
        };
    }
    if n >= 5 && name.get_char(0) == 'b' && name.get_char(1) == 'y' && name.get_char(2) == 't'
        && name.get_char(3) == 'e' && name.get_char(4) == 's' {
        proof {
            assert(name@.take(5) =~= kw_bytes());
            assert(name@.subrange(5, n as int) =~= name@.skip(5));
        }
        return match parse_usize(name, 5, n) {
            Some(v) => Ok(ParamType::FixedBytes(v)),
            None => Err(Error::InvalidNumber(name.substring_char(5, n).to_owned())),
        };
    }
    Err(Error::InvalidName(name.to_owned()))
}

} // verus!
