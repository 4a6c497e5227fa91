//! Canonical serialization of a ruleset, and the content hash computed
//! over it. The encoding is a deterministic function of the ruleset's
//! model alone: every field is length-prefixed and tagged, so two
//! structurally identical rulesets serialize to the same bytes whatever
//! incidental form their source representation had.

use vstd::prelude::*;
use vstd::string::StrSliceExecFns;
use vstd::utf8::encode_utf8;
use crate::condition::{Condition, ConditionModel};
use crate::model::{Rule, RuleModel, RuleSet, RuleSetModel};
use crate::value::{Value, ValueModel, entries_model};
use sha2::Digest;

verus! {

/// A `u64` as eight bytes, big-endian.
pub open spec fn enc_u64(n: u64) -> Seq<u8> {
    seq![
        (n >> 56) as u8,
        (n >> 48) as u8,
        (n >> 40) as u8,
        (n >> 32) as u8,
        (n >> 24) as u8,
        (n >> 16) as u8,
        (n >> 8) as u8,
        n as u8,
    ]
}

/// A string as its UTF-8 bytes, length-prefixed.
pub open spec fn enc_str(s: Seq<char>) -> Seq<u8> {
    enc_u64(encode_utf8(s).len() as u64) + encode_utf8(s)
}

/// An optional string: a presence byte, then the string if present.
pub open spec fn enc_opt_str(o: Option<Seq<char>>) -> Seq<u8> {
    match o {
        None => seq![0u8],
        Some(s) => seq![1u8] + enc_str(s),
    }
}

/// A boolean as one byte.
pub open spec fn enc_bool(b: bool) -> Seq<u8> {
    seq![if b { 1u8 } else { 0u8 }]
}

/// A value, tagged by its kind; lists and objects are length-prefixed.
pub open spec fn enc_value(v: ValueModel) -> Seq<u8>
    decreases v, 0int,
{
    match v {
        ValueModel::Null => seq![0u8],
        ValueModel::Bool(b) => seq![1u8] + enc_bool(b),
        ValueModel::Int(i) => seq![2u8] + enc_u64(i as u64),
        ValueModel::Str(s) => seq![3u8] + enc_str(s),
        ValueModel::List(l) => seq![4u8] + enc_u64(l.len() as u64) + enc_values(l, 0),
        ValueModel::Object(entries) => seq![5u8] + enc_u64(entries.len() as u64) + enc_entries(
            entries,
            0,
        ),
    }
}

/// The values of `l` from position `i` on, concatenated.
pub open spec fn enc_values(l: Seq<ValueModel>, i: int) -> Seq<u8>
    decreases l, l.len() - i,
{
    if 0 <= i < l.len() {
        enc_value(l[i]) + enc_values(l, i + 1)
    } else {
        Seq::empty()
    }
}

/// The `(key, value)` entries from position `i` on, concatenated.
pub open spec fn enc_entries(entries: Seq<(Seq<char>, ValueModel)>, i: int) -> Seq<u8>
    decreases entries, entries.len() - i,
{
    if 0 <= i < entries.len() {
        enc_str(entries[i].0) + enc_value(entries[i].1) + enc_entries(entries, i + 1)
    } else {
        Seq::empty()
    }
}

/// The strings of `l` from position `i` on, concatenated.
pub open spec fn enc_strs(l: Seq<Seq<char>>, i: int) -> Seq<u8>
    decreases l.len() - i,
{
    if 0 <= i < l.len() {
        enc_str(l[i]) + enc_strs(l, i + 1)
    } else {
        Seq::empty()
    }
}

/// A condition, tagged by its variant; child lists are length-prefixed.
pub open spec fn enc_condition(c: ConditionModel) -> Seq<u8>
    decreases c, 0int,
{
    match c {
        ConditionModel::And { conditions } => seq![0u8] + enc_u64(conditions.len() as u64)
            + enc_conditions(conditions, 0),
        ConditionModel::Or { conditions } => seq![1u8] + enc_u64(conditions.len() as u64)
            + enc_conditions(conditions, 0),
        ConditionModel::Not { condition } => seq![2u8] + enc_condition(*condition),
        ConditionModel::Equals { field, value } => seq![3u8] + enc_str(field) + enc_value(value),
        ConditionModel::GreaterThan { field, value } => seq![4u8] + enc_str(field) + enc_u64(
            value as u64,
        ),
        ConditionModel::LessThan { field, value } => seq![5u8] + enc_str(field) + enc_u64(
            value as u64,
        ),
        ConditionModel::Contains { field, value } => seq![6u8] + enc_str(field) + enc_str(value),
        ConditionModel::In { field, values } => seq![7u8] + enc_str(field) + enc_u64(
            values.len() as u64,
        ) + enc_values(values, 0),
    }
}

/// The conditions of `l` from position `i` on, concatenated.
pub open spec fn enc_conditions(l: Seq<ConditionModel>, i: int) -> Seq<u8>
    decreases l, l.len() - i,
{
    if 0 <= i < l.len() {
        enc_condition(l[i]) + enc_conditions(l, i + 1)
    } else {
        Seq::empty()
    }
}

/// A rule: every field, in declaration order.
pub open spec fn enc_rule(r: RuleModel) -> Seq<u8> {
    enc_str(r.id) + enc_opt_str(r.description) + enc_opt_str(r.severity) + enc_u64(
        r.tags.len() as u64,
    ) + enc_strs(r.tags, 0) + enc_condition(r.when) + enc_u64(r.action.len() as u64) + enc_entries(
        r.action,
        0,
    ) + enc_bool(r.generated_by_llm) + enc_opt_str(r.prompt_sha)
}

/// The rules of `l` from position `i` on, concatenated.
pub open spec fn enc_rules(l: Seq<RuleModel>, i: int) -> Seq<u8>
    decreases l.len() - i,
{
    if 0 <= i < l.len() {
        enc_rule(l[i]) + enc_rules(l, i + 1)
    } else {
        Seq::empty()
    }
}

/// The canonical byte serialization of a whole ruleset.
pub open spec fn enc_ruleset(m: RuleSetModel) -> Seq<u8> {
    enc_u64(m.rules.len() as u64) + enc_rules(m.rules, 0) + enc_str(m.version) + enc_u64(
        m.metadata.len() as u64,
    ) + enc_entries(m.metadata, 0)
}

/// The digest a ruleset is identified by: SHA-256 over its canonical
/// serialization, as lowercase hex.
pub open spec fn ruleset_sha_spec(m: RuleSetModel) -> Seq<char> {
    sha256_hex_of(enc_ruleset(m))
}

/// The SHA-256 digest of a byte sequence, formatted as lowercase hex. The
/// digest is a function of the bytes alone; its definition is the sha2
/// crate's.
pub uninterp spec fn sha256_hex_of(bytes: Seq<u8>) -> Seq<char>;

/// The shape of a hex-formatted SHA-256 digest: 64 characters, each a
/// lowercase hexadecimal digit.
pub open spec fn is_hex_digest(s: Seq<char>) -> bool {
    s.len() == 64 && forall|i: int|
        0 <= i < s.len() ==> ('0' <= #[trigger] s[i] <= '9' || 'a' <= s[i] <= 'f')
}

/// Relies on sha2::Sha256 (via the Digest trait) to compute the SHA-256
/// digest of the input bytes, and formats it as lowercase hex: a 32-byte
/// digest written as exactly two lowercase hex digits per byte, leading
/// zeros kept. The result depends on the bytes alone.
#[verifier::external_body]
fn sha256_hex(bytes: &Vec<u8>) -> (r: String)
    ensures
        r@ == sha256_hex_of(bytes@),
        is_hex_digest(r@),
{
    let mut hasher = sha2::Sha256::new();
    hasher.update(bytes.as_slice());
    format!("{:x}", hasher.finalize())
}

/// Appends the big-endian bytes of `n`.
fn push_u64(out: &mut Vec<u8>, n: u64)
    ensures
        final(out)@ == old(out)@ + enc_u64(n),
{
    out.push(#[verifier::truncate] ((n >> 56) as u8));
    out.push(#[verifier::truncate] ((n >> 48) as u8));
    out.push(#[verifier::truncate] ((n >> 40) as u8));
    out.push(#[verifier::truncate] ((n >> 32) as u8));
    out.push(#[verifier::truncate] ((n >> 24) as u8));
    out.push(#[verifier::truncate] ((n >> 16) as u8));
    out.push(#[verifier::truncate] ((n >> 8) as u8));
    out.push(#[verifier::truncate] (n as u8));
    proof {
        assert(out@ =~= old(out)@ + enc_u64(n));
    }
}

/// Appends the length-prefixed UTF-8 bytes of `s`.
fn push_str(out: &mut Vec<u8>, s: &String)
    ensures
        final(out)@ == old(out)@ + enc_str(s@),
{
    let mut bytes = s.as_str().as_bytes_vec();
    push_u64(out, bytes.len() as u64);
    out.append(&mut bytes);
    proof {
        assert(out@ =~= old(out)@ + enc_str(s@));
    }
}

/// Appends the presence byte and, if present, the string.
fn push_opt_str(out: &mut Vec<u8>, o: &Option<String>)
    ensures
        final(out)@ == old(out)@ + enc_opt_str(crate::model::opt_str_model(*o)),
{
    match o {
        None => {
            out.push(0u8);
            proof {
                assert(out@ =~= old(out)@ + enc_opt_str(crate::model::opt_str_model(*o)));
            }
        },
        Some(s) => {
            out.push(1u8);
            push_str(out, s);
            proof {
                assert(out@ =~= old(out)@ + enc_opt_str(crate::model::opt_str_model(*o)));
            }
        },
    }
}

/// Appends one byte for `b`.
fn push_bool(out: &mut Vec<u8>, b: bool)
    ensures
        final(out)@ == old(out)@ + enc_bool(b),
{
    out.push(if b { 1u8 } else { 0u8 });
    proof {
        assert(out@ =~= old(out)@ + enc_bool(b));
    }
}

/// Appends the tagged encoding of `v`.
fn push_value(out: &mut Vec<u8>, v: &Value)
    ensures
        final(out)@ == old(out)@ + enc_value(v.model()),
    decreases *v,
{
    match v {
        Value::Null => {
            out.push(0u8);
            proof {
                assert(out@ =~= old(out)@ + enc_value(v.model()));
            }
        },
        Value::Bool(b) => {
            out.push(1u8);
            push_bool(out, *b);
            proof {
                assert(out@ =~= old(out)@ + enc_value(v.model()));
            }
        },
        Value::Int(n) => {
            out.push(2u8);
            push_u64(out, #[verifier::truncate] (*n as u64));
            proof {
                assert(out@ =~= old(out)@ + enc_value(v.model()));
            }
        },
        Value::Str(s) => {
            out.push(3u8);
            push_str(out, s);
            proof {
                assert(out@ =~= old(out)@ + enc_value(v.model()));
            }
        },
        Value::List(items) => {
            out.push(4u8);
            push_u64(out, items.len() as u64);
            let ghost l = v.model()->List_0;
            let ghost base = out@;
            proof {
                assert(forall|j: int| 0 <= j < l.len() ==> l[j] == items@[j].model());
            }
            let n = items.len();
            let mut i: usize = 0;
            while i < n
                invariant
                    i <= n,
                    n == items@.len(),
                    n == l.len(),
                    forall|j: int| 0 <= j < l.len() ==> l[j] == items@[j].model(),
                    v == Value::List(*items),
                    l == v.model()->List_0,
                    out@ + enc_values(l, i as int) == base + enc_values(l, 0),
                decreases n - i,
            {
                let item = &items[i];
                proof {
                    assert(decreases_to!(*v => v->List_0));
                    assert(decreases_to!(v->List_0 => v->List_0[i as int]));
                    assert(decreases_to!(*v => *item));
                }
                push_value(out, item);
                proof {
                    assert(enc_values(l, i as int) == enc_value(l[i as int]) + enc_values(
                        l,
                        i as int + 1,
                    ));
                    assert(out@ + enc_values(l, i as int + 1) =~= base + enc_values(l, 0));
                }
                i += 1;
            }
            proof {
                assert(enc_values(l, n as int) == Seq::<u8>::empty());
                assert(out@ =~= out@ + enc_values(l, n as int));
                assert(out@ =~= base + enc_values(l, 0));
                assert(out@ =~= old(out)@ + enc_value(v.model()));
            }
        },
        Value::Object(entries) => {
            out.push(5u8);
            proof {
                assert(decreases_to!(*v => v->Object_0));
                assert(v->Object_0 == *entries);
                assert(decreases_to!(*v => *entries));
            }
            push_entries(out, entries);
            proof {
                let l = v.model()->Object_0;
                let em = entries_model(entries@);
                assert(forall|j: int| 0 <= j < l.len() ==> l[j] == (
                    entries@[j].0@,
                    entries@[j].1.model(),
                ));
                assert(forall|j: int| 0 <= j < em.len() ==> em[j] == (
                    entries@[j].0@,
                    entries@[j].1.model(),
                ));
                assert(l =~= em);
                assert(out@ =~= old(out)@ + enc_value(v.model()));
            }
        },
    }
}

/// Appends the length-prefixed entries, each key before its value.
fn push_entries(out: &mut Vec<u8>, entries: &Vec<(String, Value)>)
    ensures
        final(out)@ == old(out)@ + enc_u64(entries@.len() as u64) + enc_entries(
            entries_model(entries@),
            0,
        ),
    decreases *entries,
{
    push_u64(out, entries.len() as u64);
    let ghost m = entries_model(entries@);
    let ghost base = out@;
    let n = entries.len();
    let mut i: usize = 0;
    while i < n
        invariant
            i <= n,
            n == entries@.len(),
            n == m.len(),
            m == entries_model(entries@),
            forall|j: int| 0 <= j < m.len() ==> m[j] == (entries@[j].0@, entries@[j].1.model()),
            out@ + enc_entries(m, i as int) == base + enc_entries(m, 0),
        decreases n - i,
    {
        push_str(out, &entries[i].0);
        let entry = &entries[i];
        proof {
            assert(*entry == entries@[i as int]);
            assert(decreases_to!(*entries => entries@));
            assert(decreases_to!(entries@ => entries@[i as int]));
            assert(decreases_to!(entries@[i as int] => entries@[i as int].1));
            assert(decreases_to!(*entries => entry.1));
        }
        push_value(out, &entries[i].1);
        proof {
            assert(enc_entries(m, i as int) == enc_str(m[i as int].0) + enc_value(m[i as int].1)
                + enc_entries(m, i as int + 1));
            assert(out@ + enc_entries(m, i as int + 1) =~= base + enc_entries(m, 0));
        }
        i += 1;
    }
    proof {
        assert(enc_entries(m, n as int) == Seq::<u8>::empty());
        assert(out@ =~= out@ + enc_entries(m, n as int));
        assert(out@ =~= old(out)@ + enc_u64(entries@.len() as u64) + enc_entries(m, 0));
    }
}

/// Appends the tagged encoding of `c`.
fn push_condition(out: &mut Vec<u8>, c: &Condition)
    ensures
        final(out)@ == old(out)@ + enc_condition(c.model()),
    decreases *c, 1int,
{
    match c {
        Condition::And { conditions } => {
            out.push(0u8);
            push_condition_list(out, c, conditions, true);
            proof {
                assert(out@ =~= old(out)@ + enc_condition(c.model()));
            }
        },
        Condition::Or { conditions } => {
            out.push(1u8);
            push_condition_list(out, c, conditions, false);
            proof {
                assert(out@ =~= old(out)@ + enc_condition(c.model()));
            }
        },
        Condition::Not { condition } => {
            out.push(2u8);
            let child = &**condition;
            proof {
                assert(decreases_to!(*c => *child));
            }
            push_condition(out, child);
            proof {
                assert(out@ =~= old(out)@ + enc_condition(c.model()));
            }
        },
        Condition::Equals { field, value } => {
            out.push(3u8);
            push_str(out, field);
            push_value(out, value);
            proof {
                assert(out@ =~= old(out)@ + enc_condition(c.model()));
            }
        },
        Condition::GreaterThan { field, value } => {
            out.push(4u8);
            push_str(out, field);
            push_u64(out, #[verifier::truncate] (*value as u64));
            proof {
                assert(out@ =~= old(out)@ + enc_condition(c.model()));
            }
        },
        Condition::LessThan { field, value } => {
            out.push(5u8);
            push_str(out, field);
            push_u64(out, #[verifier::truncate] (*value as u64));
            proof {
                assert(out@ =~= old(out)@ + enc_condition(c.model()));
            }
        },
        Condition::Contains { field, value } => {
            out.push(6u8);
            push_str(out, field);
            push_str(out, value);
            proof {
                assert(out@ =~= old(out)@ + enc_condition(c.model()));
            }
        },
        Condition::In { field, values } => {
            out.push(7u8);
            push_str(out, field);
            push_u64(out, values.len() as u64);
            let ghost l = c.model()->In_values;
            let ghost base = out@;
            proof {
                assert(forall|j: int| 0 <= j < l.len() ==> l[j] == values@[j].model());
            }
            let n = values.len();
            let mut i: usize = 0;
            while i < n
                invariant
                    i <= n,
                    n == values@.len(),
                    n == l.len(),
                    forall|j: int| 0 <= j < l.len() ==> l[j] == values@[j].model(),
                    out@ + enc_values(l, i as int) == base + enc_values(l, 0),
                decreases n - i,
            {
                push_value(out, &values[i]);
                proof {
                    assert(enc_values(l, i as int) == enc_value(l[i as int]) + enc_values(
                        l,
                        i as int + 1,
                    ));
                    assert(out@ + enc_values(l, i as int + 1) =~= base + enc_values(l, 0));
                }
                i += 1;
            }
            proof {
                assert(enc_values(l, n as int) == Seq::<u8>::empty());
                assert(out@ =~= out@ + enc_values(l, n as int));
                assert(out@ =~= old(out)@ + enc_condition(c.model()));
            }
        },
    }
}

/// Appends the length prefix and the children of an `And` or `Or`.
fn push_condition_list(out: &mut Vec<u8>, c: &Condition, conditions: &Vec<Condition>, and: bool)
    requires
        and ==> c == (Condition::And { conditions: *conditions }),
        !and ==> c == (Condition::Or { conditions: *conditions }),
    ensures
        and ==> final(out)@ == old(out)@ + enc_u64(conditions@.len() as u64) + enc_conditions(
            c.model()->And_conditions,
            0,
        ),
        !and ==> final(out)@ == old(out)@ + enc_u64(conditions@.len() as u64) + enc_conditions(
            c.model()->Or_conditions,
            0,
        ),
    decreases *c, 0int,
{
    push_u64(out, conditions.len() as u64);
    let ghost l = if and {
        c.model()->And_conditions
    } else {
        c.model()->Or_conditions
    };
    let ghost base = out@;
    proof {
        assert(forall|j: int| 0 <= j < l.len() ==> l[j] == conditions@[j].model());
    }
    let n = conditions.len();
    let mut i: usize = 0;
    while i < n
        invariant
            i <= n,
            n == conditions@.len(),
            n == l.len(),
            forall|j: int| 0 <= j < l.len() ==> l[j] == conditions@[j].model(),
            and ==> c == (Condition::And { conditions: *conditions }),
            !and ==> c == (Condition::Or { conditions: *conditions }),
            and ==> l == c.model()->And_conditions,
            !and ==> l == c.model()->Or_conditions,
            out@ + enc_conditions(l, i as int) == base + enc_conditions(l, 0),
        decreases n - i,
    {
        let child = &conditions[i];
        proof {
            if and {
                assert(decreases_to!(*c => c->And_conditions));
                assert(decreases_to!(c->And_conditions => c->And_conditions[i as int]));
            } else {
                assert(decreases_to!(*c => c->Or_conditions));
                assert(decreases_to!(c->Or_conditions => c->Or_conditions[i as int]));
            }
            assert(decreases_to!(*c => *child));
        }
        push_condition(out, child);
        proof {
            assert(enc_conditions(l, i as int) == enc_condition(l[i as int]) + enc_conditions(
                l,
                i as int + 1,
            ));
            assert(out@ + enc_conditions(l, i as int + 1) =~= base + enc_conditions(l, 0));
        }
        i += 1;
    }
    proof {
        assert(enc_conditions(l, n as int) == Seq::<u8>::empty());
        assert(out@ =~= out@ + enc_conditions(l, n as int));
        assert(out@ =~= old(out)@ + enc_u64(conditions@.len() as u64) + enc_conditions(l, 0));
    }
}

/// Appends the encoding of every field of `rule`, in declaration order.
#[verifier::rlimit(60)]
fn push_rule(out: &mut Vec<u8>, rule: &Rule)
    ensures
        final(out)@ == old(out)@ + enc_rule(rule.model()),
{
    push_str(out, &rule.id);
    push_opt_str(out, &rule.description);
    push_opt_str(out, &rule.severity);
    push_u64(out, rule.tags.len() as u64);
    let ghost l = rule.model().tags;
    let ghost base = out@;
    proof {
        assert(forall|j: int| 0 <= j < l.len() ==> l[j] == rule.tags@[j]@);
    }
    let n = rule.tags.len();
    let mut i: usize = 0;
    while i < n
        invariant
            i <= n,
            n == rule.tags@.len(),
            n == l.len(),
            forall|j: int| 0 <= j < l.len() ==> l[j] == rule.tags@[j]@,
            out@ + enc_strs(l, i as int) == base + enc_strs(l, 0),
        decreases n - i,
    {
        push_str(out, &rule.tags[i]);
        proof {
            assert(enc_strs(l, i as int) == enc_str(l[i as int]) + enc_strs(l, i as int + 1));
            assert(out@ + enc_strs(l, i as int + 1) =~= base + enc_strs(l, 0));
        }
        i += 1;
    }
    proof {
        assert(enc_strs(l, n as int) == Seq::<u8>::empty());
        assert(out@ =~= out@ + enc_strs(l, n as int));
    }
    push_condition(out, &rule.when);
    push_entries(out, &rule.action.outcome);
    push_bool(out, rule.generated_by_llm);
    push_opt_str(out, &rule.prompt_sha);
    proof {
        assert(out@ =~= old(out)@ + enc_rule(rule.model()));
    }
}

/// The canonical byte serialization of `ruleset`: a deterministic function
/// of its model.
pub fn canonical_bytes(ruleset: &RuleSet) -> (r: Vec<u8>)
    ensures
        r@ == enc_ruleset(ruleset.model()),
{
    let mut out: Vec<u8> = Vec::new();
    push_u64(&mut out, ruleset.rules.len() as u64);
    let ghost l = ruleset.model().rules;
    let ghost base = out@;
    proof {
        assert(forall|j: int| 0 <= j < l.len() ==> l[j] == ruleset.rules@[j].model());
    }
    let n = ruleset.rules.len();
    let mut i: usize = 0;
    while i < n
        invariant
            i <= n,
            n == ruleset.rules@.len(),
            n == l.len(),
            forall|j: int| 0 <= j < l.len() ==> l[j] == ruleset.rules@[j].model(),
            out@ + enc_rules(l, i as int) == base + enc_rules(l, 0),
        decreases n - i,
    {
        push_rule(&mut out, &ruleset.rules[i]);
        proof {
            assert(enc_rules(l, i as int) == enc_rule(l[i as int]) + enc_rules(l, i as int + 1));
            assert(out@ + enc_rules(l, i as int + 1) =~= base + enc_rules(l, 0));
        }
        i += 1;
    }
    proof {
        assert(enc_rules(l, n as int) == Seq::<u8>::empty());
        assert(out@ =~= out@ + enc_rules(l, n as int));
    }
    push_str(&mut out, &ruleset.version);
    push_entries(&mut out, &ruleset.metadata);
    proof {
        assert(out@ =~= enc_ruleset(ruleset.model()));
    }
    out
}

/// Computes the content hash of a ruleset: SHA-256 over its canonical
/// serialization, as lowercase hex.
pub fn ruleset_sha(ruleset: &RuleSet) -> (r: String)
    ensures
        r@ == ruleset_sha_spec(ruleset.model()),
        is_hex_digest(r@),
{
    let bytes = canonical_bytes(ruleset);
    sha256_hex(&bytes)
}

} // verus!
