//! Paths of the runtime directory and the parsing of `KEY=VALUE`
//! environment arguments.

use vstd::prelude::*;
use vstd::utf8::{
    decode_utf8, encode_utf8, valid_utf8,
    is_char_boundary_iff_not_is_continuation_byte, valid_utf8_split,
};
use crate::messages::{bytes_to_string, pairs_view, strs_view, EnvPairs};
use crate::registry::{env_get, env_idx, env_put, env_unique, lemma_env_get_put};
use crate::timefmt::{dec_digits, u64_to_string};

verus! {

/// The directory holding the socket, the PID file and the log for the
/// daemon of user `uid`.
pub open spec fn runtime_dir_chars(uid: u32) -> Seq<char> {
    "/tmp/amux-"@ + dec_digits(uid as int)
}

/// `/tmp/amux-<uid>`.
pub fn runtime_dir(uid: u32) -> (r: String)
    ensures
        r@ == runtime_dir_chars(uid),
{
    let mut s = "/tmp/amux-".to_owned();
    let n = u64_to_string(uid as u64);
    s.append(n.as_str());
    s
}

/// `/tmp/amux-<uid>/server.sock`.
pub fn socket_path(uid: u32) -> (r: String)
    ensures
        r@ == runtime_dir_chars(uid) + "/server.sock"@,
{
    let mut s = runtime_dir(uid);
    s.append("/server.sock");
    s
}

/// Why a `KEY=VALUE` argument was rejected, carrying the offender.
#[derive(Clone, Debug, PartialEq, Eq)]
pub enum EnvParseError {
    /// No `=` occurs in the argument.
    MissingSeparator(String),
    /// The part before the first `=` is empty.
    EmptyKey(String),
}

/// Index of the first `=` byte, or -1.
pub open spec fn first_eq(bs: Seq<u8>) -> int
    decreases bs.len(),
{
    if bs.len() == 0 {
        -1
    } else if bs[0] == 61u8 {
        0
    } else {
        let r = first_eq(bs.skip(1));
        if r < 0 {
            -1
        } else {
            r + 1
        }
    }
}

proof fn lemma_first_eq_found(bs: Seq<u8>, i: int)
    requires
        0 <= i < bs.len(),
        bs[i] == 61u8,
        forall|j: int| 0 <= j < i ==> bs[j] != 61u8,
    ensures
        first_eq(bs) == i,
    decreases bs.len(),
{
    if i > 0 {
        lemma_first_eq_found(bs.skip(1), i - 1);
        assert(forall|j: int| 0 <= j < bs.skip(1).len() ==> bs.skip(1)[j] == bs[j + 1]);
    }
}

proof fn lemma_first_eq_none(bs: Seq<u8>)
    requires
        forall|j: int| 0 <= j < bs.len() ==> bs[j] != 61u8,
    ensures
        first_eq(bs) == -1,
    decreases bs.len(),
{
    if bs.len() > 0 {
        lemma_first_eq_none(bs.skip(1));
        assert(forall|j: int| 0 <= j < bs.skip(1).len() ==> bs.skip(1)[j] == bs[j + 1]);
    }
}

/// The key half of a well-formed `KEY=VALUE` string: the characters
/// before the first `=`.
pub open spec fn env_key_chars(s: Seq<char>) -> Seq<char> {
    decode_utf8(encode_utf8(s).take(first_eq(encode_utf8(s))))
}

/// The value half of a well-formed `KEY=VALUE` string: the characters
/// after the first `=`.
pub open spec fn env_val_chars(s: Seq<char>) -> Seq<char> {
    decode_utf8(encode_utf8(s).skip(first_eq(encode_utf8(s)) + 1))
}

/// Split one `KEY=VALUE` argument at its first `=`; a missing separator
/// or an empty key is rejected.
fn split_env_var(var: &String) -> (r: Result<(String, String), EnvParseError>)
    ensures
        ({
            let bs = encode_utf8(var@);
            if first_eq(bs) < 0 {
                r matches Err(e) && (e matches EnvParseError::MissingSeparator(s) && s@ == var@)
            } else if first_eq(bs) == 0 {
                r matches Err(e) && (e matches EnvParseError::EmptyKey(s) && s@ == var@)
            } else {
                r matches Ok((k, v)) && k@ == env_key_chars(var@) && v@ == env_val_chars(var@)
            }
        }),
{
    let bytes = var.as_str().as_bytes();
    let ghost bs = encode_utf8(var@);
    proof {
        vstd::utf8::encode_utf8_valid_utf8(var@);
    }
    let mut i: usize = 0;
    let mut found = false;
    while i < bytes.len() && !found
        invariant
            i <= bytes@.len(),
            bytes@ == bs,
            valid_utf8(bs),
            !found ==> (forall|j: int| 0 <= j < i ==> bs[j] != 61u8),
            found ==> i < bs.len() && bs[i as int] == 61u8 && (forall|j: int|
                0 <= j < i ==> bs[j] != 61u8),
        decreases bytes@.len() - i + (if found { 0int } else { 1int }),
    {
        if bytes[i] == 61u8 {
            found = true;
        } else {
            i = i + 1;
        }
    }
    if !found {
        proof {
            lemma_first_eq_none(bs);
        }
        return Err(EnvParseError::MissingSeparator(var.clone()));
    }
    proof {
        lemma_first_eq_found(bs, i as int);
    }
    if i == 0 {
        return Err(EnvParseError::EmptyKey(var.clone()));
    }
    proof {
        is_char_boundary_iff_not_is_continuation_byte(bs, i as int);
        valid_utf8_split(bs, i as int);
        vstd::utf8::decode_utf8_split(bs, i as int);
        // The byte after the separator starts a fresh scalar: `=` encodes
        // a whole one-byte scalar.
        let tail = bs.skip(i as int);
        assert(tail[0] == 61u8);
        assert(vstd::utf8::is_leading_byte_width_1(61u8));
        assert(vstd::utf8::length_of_first_scalar(tail) == 1);
        assert(vstd::utf8::pop_first_scalar(tail) =~= bs.skip(i + 1));
        assert(valid_utf8(bs.skip(i + 1)));
    }
    let key_part = vstd::slice::slice_subrange(bytes, 0, i);
    let val_part = vstd::slice::slice_subrange(bytes, i + 1, bytes.len());
    proof {
        assert(bs.subrange(0, i as int) =~= bs.take(i as int));
        assert(bs.subrange(i + 1, bs.len() as int) =~= bs.skip(i + 1));
    }
    let key = match bytes_to_string(vstd::slice::slice_to_vec(key_part)) {
        Some(k) => k,
        None => {
            proof {
                assert(false);
            }
            return Err(EnvParseError::MissingSeparator(var.clone()));
        },
    };
    let val = match bytes_to_string(vstd::slice::slice_to_vec(val_part)) {
        Some(v) => v,
        None => {
            proof {
                assert(false);
            }
            return Err(EnvParseError::MissingSeparator(var.clone()));
        },
    };
    Ok((key, val))
}

/// Whether one `KEY=VALUE` argument is malformed.
pub open spec fn env_var_malformed(s: Seq<char>) -> bool {
    first_eq(encode_utf8(s)) <= 0
}

/// Index of the first malformed argument, or -1.
pub open spec fn first_bad(vs: Seq<Seq<char>>) -> int
    decreases vs.len(),
{
    if vs.len() == 0 {
        -1
    } else if env_var_malformed(vs[0]) {
        0
    } else {
        let r = first_bad(vs.skip(1));
        if r < 0 {
            -1
        } else {
            r + 1
        }
    }
}

proof fn lemma_first_bad_found(vs: Seq<Seq<char>>, i: int)
    requires
        0 <= i < vs.len(),
        env_var_malformed(vs[i]),
        forall|j: int| 0 <= j < i ==> !env_var_malformed(#[trigger] vs[j]),
    ensures
        first_bad(vs) == i,
    decreases vs.len(),
{
    if i > 0 {
        lemma_first_bad_found(vs.skip(1), i - 1);
        assert(forall|j: int| 0 <= j < vs.skip(1).len() ==> vs.skip(1)[j] == (#[trigger] vs[j
            + 1]));
    }
}

/// The binding a key ends with once the arguments are applied in order:
/// the value of its last occurrence, or nothing.
pub open spec fn last_binding(vs: Seq<Seq<char>>, k: Seq<char>) -> Option<Seq<char>>
    decreases vs.len(),
{
    if vs.len() == 0 {
        Option::None
    } else if env_key_chars(vs.last()) == k {
        Option::Some(env_val_chars(vs.last()))
    } else {
        last_binding(vs.drop_last(), k)
    }
}

/// Parse `KEY=VALUE` arguments into a metadata map; no arguments means
/// no map at all.  Each argument splits at its first `=`; a later
/// binding of a key replaces an earlier one, as the map pins for every
/// key; the first malformed argument is named in the error.
pub fn parse_env_vars(vars: &Vec<String>) -> (r: Result<Option<EnvPairs>, EnvParseError>)
    ensures
        vars@.len() == 0 ==> (r matches Ok(o) && o is None),
        vars@.len() > 0 ==> (r matches Ok(o) ==> o is Some),
        (r matches Err(_)) <==> (exists|j: int|
            0 <= j < vars@.len() && env_var_malformed(#[trigger] vars@[j]@)),
        (r matches Err(e) ==> ({
            let b = first_bad(strs_view(*vars));
            &&& 0 <= b < vars@.len()
            &&& (match e {
                EnvParseError::MissingSeparator(s) => s@ == vars@[b]@ && first_eq(
                    encode_utf8(vars@[b]@),
                ) < 0,
                EnvParseError::EmptyKey(s) => s@ == vars@[b]@ && first_eq(
                    encode_utf8(vars@[b]@),
                ) == 0,
            })
        })),
        (r matches Ok(Some(m)) ==> {
            &&& vars@.len() > 0
            &&& env_unique(pairs_view(m))
            &&& (forall|k: Seq<char>|
                #[trigger] env_get(pairs_view(m), k) == last_binding(strs_view(*vars), k))
            &&& (forall|j: int|
                0 <= j < vars@.len() ==> env_idx(
                    pairs_view(m),
                    env_key_chars(#[trigger] vars@[j]@),
                ) >= 0)
            &&& (forall|i: int|
                0 <= i < pairs_view(m).len() ==> exists|j: int|
                    0 <= j < vars@.len() && #[trigger] pairs_view(m)[i] == (
                    env_key_chars(vars@[j]@),
                    env_val_chars(vars@[j]@),
                ))
        }),
{
    let ghost sv = strs_view(*vars);
    if vars.len() == 0 {
        return Ok(None);
    }
    let mut out: EnvPairs = Vec::new();
    proof {
        assert(pairs_view(out) =~= Seq::<(Seq<char>, Seq<char>)>::empty());
        assert(sv.take(0) =~= Seq::<Seq<char>>::empty());
        assert forall|k: Seq<char>|
            #[trigger] env_get(pairs_view(out), k) == last_binding(sv.take(0), k) by {
            crate::registry::lemma_env_idx(pairs_view(out), k);
        }
    }
    let mut i: usize = 0;
    while i < vars.len()
        invariant
            i <= vars@.len(),
            sv == strs_view(*vars),
            env_unique(pairs_view(out)),
            forall|j: int| 0 <= j < i ==> !env_var_malformed(#[trigger] vars@[j]@),
            forall|k: Seq<char>|
                #[trigger] env_get(pairs_view(out), k) == last_binding(sv.take(i as int), k),
            forall|j: int|
                0 <= j < i ==> env_idx(pairs_view(out), env_key_chars(#[trigger] vars@[j]@))
                    >= 0,
            forall|k: int|
                0 <= k < pairs_view(out).len() ==> exists|j: int|
                    0 <= j < i && #[trigger] pairs_view(out)[k] == (
                    env_key_chars(vars@[j]@),
                    env_val_chars(vars@[j]@),
                ),
        decreases vars@.len() - i,
    {
        proof {
            assert(sv[i as int] == vars@[i as int]@);
        }
        match split_env_var(&vars[i]) {
            Ok((k, v)) => {
                let ghost before = pairs_view(out);
                let ghost kk = k@;
                let ghost vv = v@;
                proof {
                    crate::registry::lemma_env_idx(before, kk);
                }
                env_put(&mut out, k, v);
                proof {
                    let after = pairs_view(out);
                    lemma_env_get_put(before, kk, vv, after);
                    assert(sv.take(i + 1).last() == sv[i as int]);
                    assert(sv.take(i + 1).drop_last() =~= sv.take(i as int));
                    assert forall|key: Seq<char>|
                        #[trigger] env_get(after, key) == last_binding(
                        sv.take(i + 1),
                        key,
                    ) by {
                        assert(env_get(after, key) == (if key == kk {
                            Option::Some(vv)
                        } else {
                            env_get(before, key)
                        }));
                    }
                    assert forall|j: int|
                        0 <= j < i + 1 implies env_idx(
                        after,
                        env_key_chars(#[trigger] vars@[j]@),
                    ) >= 0 by {
                        let target = env_key_chars(vars@[j]@);
                        crate::registry::lemma_env_idx(before, target);
                        crate::registry::lemma_env_idx(after, target);
                        if j < i {
                            if env_idx(after, target) < 0 {
                                let ii = env_idx(before, target);
                                if env_idx(before, kk) >= 0 && ii == env_idx(before, kk) {
                                    assert(after[ii].0 == kk);
                                    assert(before[ii].0 == target);
                                    crate::registry::lemma_env_idx_at(after, ii);
                                } else {
                                    if env_idx(before, kk) >= 0 {
                                        assert(after[ii].0 == target);
                                    } else {
                                        assert(after[ii].0 == target);
                                    }
                                    crate::registry::lemma_env_idx_at(after, ii);
                                }
                            }
                        } else {
                            if env_idx(before, kk) >= 0 {
                                assert(after[env_idx(before, kk)].0 == kk);
                                crate::registry::lemma_env_idx_at(after, env_idx(before, kk));
                            } else {
                                assert(after[before.len() as int].0 == kk);
                                crate::registry::lemma_env_idx_at(after, before.len() as int);
                            }
                        }
                    }
                    assert forall|kdx: int|
                        0 <= kdx < pairs_view(out).len() implies exists|j: int|
                        0 <= j < i + 1 && #[trigger] pairs_view(out)[kdx] == (
                        env_key_chars(vars@[j]@),
                        env_val_chars(vars@[j]@),
                    ) by {
                        let after = pairs_view(out);
                        if env_idx(before, kk) >= 0 && kdx == env_idx(before, kk) {
                            assert(after[kdx] == (env_key_chars(vars@[i as int]@),
                                env_val_chars(vars@[i as int]@)));
                        } else if kdx < before.len() {
                            assert(after[kdx] == before[kdx]);
                        } else {
                            assert(after[kdx] == (env_key_chars(vars@[i as int]@),
                                env_val_chars(vars@[i as int]@)));
                        }
                    }
                }
            },
            Err(e) => {
                proof {
                    assert(forall|j: int|
                        0 <= j < i ==> !env_var_malformed(#[trigger] sv[j]));
                    lemma_first_bad_found(sv, i as int);
                }
                return Err(e);
            },
        }
        i = i + 1;
    }
    proof {
        assert(sv.take(vars@.len() as int) =~= sv);
    }
    Ok(Some(out))
}

} // verus!
