//! Validation rules and helpers for metrics.
//!
//! All operations here are pure: they inspect a value and report the first
//! rule it breaks as a structured validation error, or succeed.  The rules
//! are the usual metric conventions: names start with a letter or underscore
//! and use letters, digits, underscores and colons; label keys are stricter
//! (no colons, no reserved `__` prefix); label values are nearly free-form;
//! numeric values must be finite, and counters non-negative.

use vstd::prelude::*;
use vstd::string::StrSliceExecFns;

use crate::errors::{ErrorKind, MetricsError, metrics_error};
use crate::text::{lemma_lex_transitive, lemma_lex_trichotomy, lex_lt, push_char, str_lex_lt};
use crate::labels::{Labels, LabelPair, keys_of, lemma_map_of_props, map_of, pairs_view};
use crate::scalar::{spec_canonical, spec_is_finite, spec_is_negative, spec_lt, spec_order_key, Scalar, POS_INFINITY_BITS};

verus! {

/// A character a label key may start with: an ASCII letter or underscore.
pub open spec fn spec_key_head_char(c: char) -> bool {
    ('a' <= c && c <= 'z') || ('A' <= c && c <= 'Z') || c == '_'
}

/// A character a metric name may start with: an ASCII letter, an underscore
/// or a colon.
pub open spec fn spec_name_head_char(c: char) -> bool {
    spec_key_head_char(c) || c == ':'
}

/// A character a metric name may contain: an ASCII letter, a digit, an
/// underscore or a colon.
pub open spec fn spec_name_char(c: char) -> bool {
    spec_name_head_char(c) || ('0' <= c && c <= '9')
}

/// A character a label key may contain: an ASCII letter, a digit or an
/// underscore.
pub open spec fn spec_label_key_char(c: char) -> bool {
    spec_key_head_char(c) || ('0' <= c && c <= '9')
}

/// A valid metric name: non-empty, at most 255 characters, starting with a
/// letter, underscore or colon, all characters letters, digits, underscores
/// or colons.
pub open spec fn spec_valid_metric_name(s: Seq<char>) -> bool {
    &&& s.len() > 0
    &&& s.len() <= 255
    &&& spec_name_head_char(s[0])
    &&& forall|i: int| 0 <= i < s.len() ==> spec_name_char(#[trigger] s[i])
}

/// A valid label key: non-empty, at most 128 characters, not starting with
/// the reserved `__` prefix, starting with a letter or underscore, all
/// characters letters, digits or underscores.
pub open spec fn spec_valid_label_key(s: Seq<char>) -> bool {
    &&& s.len() > 0
    &&& s.len() <= 128
    &&& !(s.len() >= 2 && s[0] == '_' && s[1] == '_')
    &&& spec_key_head_char(s[0])
    &&& forall|i: int| 0 <= i < s.len() ==> spec_label_key_char(#[trigger] s[i])
}

/// A valid label value: at most 1024 characters, no null bytes; the empty
/// string is allowed.
pub open spec fn spec_valid_label_value(s: Seq<char>) -> bool {
    &&& s.len() <= 1024
    &&& forall|i: int| 0 <= i < s.len() ==> (#[trigger] s[i]) != '\0'
}

/// A valid label set: at most 32 entries, every key and value valid.
pub open spec fn spec_valid_labels(m: Map<Seq<char>, Seq<char>>) -> bool {
    &&& m.len() <= 32
    &&& forall|k: Seq<char>|
        m.dom().contains(k) ==> spec_valid_label_key(k) && spec_valid_label_value(#[trigger] m[k])
}

/// Exec check of `spec_key_head_char`.
fn is_key_head_char(c: char) -> (r: bool)
    ensures
        r == spec_key_head_char(c),
{
    ('a' <= c && c <= 'z') || ('A' <= c && c <= 'Z') || c == '_'
}

/// Exec check of `spec_name_head_char`.
fn is_name_head_char(c: char) -> (r: bool)
    ensures
        r == spec_name_head_char(c),
{
    is_key_head_char(c) || c == ':'
}

/// Exec check of `spec_name_char`.
fn is_name_char(c: char) -> (r: bool)
    ensures
        r == spec_name_char(c),
{
    is_name_head_char(c) || ('0' <= c && c <= '9')
}

/// Exec check of `spec_label_key_char`.
fn is_label_key_char(c: char) -> (r: bool)
    ensures
        r == spec_label_key_char(c),
{
    is_key_head_char(c) || ('0' <= c && c <= '9')
}

/// Validate a metric name.  Succeeds exactly on valid names; on failure the
/// error names the first rule broken, checked in this order: emptiness,
/// length, the leading character, the character set.
pub fn validate_metric_name(name: &str) -> (r: Result<(), MetricsError>)
    ensures
        r.is_ok() <==> spec_valid_metric_name(name@),
        r.is_err() ==> (r->Err_0).kind == ErrorKind::Validation && (r->Err_0).field@
            == "name"@,
{
    let n = name.unicode_len();
    if n == 0 {
        return Err(metrics_error("name", "Metric name cannot be empty"));
    }
    if n > 255 {
        return Err(metrics_error("name", "Metric name cannot exceed 255 characters"));
    }
    if !is_name_head_char(name.get_char(0)) {
        return Err(metrics_error(
            "name",
            "Metric name must start with a letter, underscore, or colon",
        ));
    }
    let mut i: usize = 0;
    while i < n
        invariant
            i <= n,
            n == name@.len(),
            forall|j: int| 0 <= j < i ==> spec_name_char(#[trigger] name@[j]),
        decreases n - i,
    {
        if !is_name_char(name.get_char(i)) {
            return Err(metrics_error(
                "name",
                "Metric name can only contain letters, numbers, underscores, and colons",
            ));
        }
        i = i + 1;
    }
    Ok(())
}

/// Validate a label key.  Succeeds exactly on valid keys; on failure the
/// error names the first rule broken, checked in this order: emptiness,
/// length, the reserved prefix, the leading character, the character set.
pub fn validate_label_key(key: &str) -> (r: Result<(), MetricsError>)
    ensures
        r.is_ok() <==> spec_valid_label_key(key@),
        r.is_err() ==> (r->Err_0).kind == ErrorKind::Validation && (r->Err_0).field@
            == "label_key"@,
{
    let n = key.unicode_len();
    if n == 0 {
        return Err(metrics_error("label_key", "Label key cannot be empty"));
    }
    if n > 128 {
        return Err(metrics_error("label_key", "Label key cannot exceed 128 characters"));
    }
    if n >= 2 && key.get_char(0) == '_' && key.get_char(1) == '_' {
        return Err(metrics_error("label_key", "Label keys starting with '__' are reserved"));
    }
    if !is_key_head_char(key.get_char(0)) {
        return Err(metrics_error("label_key", "Label key must start with a letter or underscore"));
    }
    let mut i: usize = 0;
    while i < n
        invariant
            i <= n,
            n == key@.len(),
            forall|j: int| 0 <= j < i ==> spec_label_key_char(#[trigger] key@[j]),
        decreases n - i,
    {
        if !is_label_key_char(key.get_char(i)) {
            return Err(metrics_error(
                "label_key",
                "Label key can only contain letters, numbers, and underscores",
            ));
        }
        i = i + 1;
    }
    Ok(())
}

/// Validate a label value.  Succeeds exactly on valid values; on failure the
/// error names the first rule broken: length, then null bytes.
pub fn validate_label_value(value: &str) -> (r: Result<(), MetricsError>)
    ensures
        r.is_ok() <==> spec_valid_label_value(value@),
        r.is_err() ==> (r->Err_0).kind == ErrorKind::Validation && (r->Err_0).field@
            == "label_value"@,
{
    let n = value.unicode_len();
    if n > 1024 {
        return Err(metrics_error("label_value", "Label value cannot exceed 1024 characters"));
    }
    let mut i: usize = 0;
    while i < n
        invariant
            i <= n,
            n == value@.len(),
            forall|j: int| 0 <= j < i ==> (#[trigger] value@[j]) != '\0',
        decreases n - i,
    {
        if value.get_char(i) == '\0' {
            return Err(metrics_error("label_value", "Label value cannot contain null bytes"));
        }
        i = i + 1;
    }
    Ok(())
}

/// Validate a label set: at most 32 entries, and every key and value valid.
/// The first failure found is reported; which entry is first is arbitrary,
/// label sets being unordered.
pub fn validate_labels(labels: &Labels) -> (r: Result<(), MetricsError>)
    ensures
        r.is_ok() <==> spec_valid_labels(labels@),
        r.is_err() ==> (r->Err_0).kind == ErrorKind::Validation,
        r.is_err() && labels@.len() > 32 ==> (r->Err_0).field@ == "labels"@
            && (r->Err_0).message@ == "Cannot have more than 32 labels per metric"@,
{
    proof {
        use_type_invariant(labels);
        labels.lemma_view();
    }
    let n = labels.len();
    if n > 32 {
        return Err(metrics_error("labels", "Cannot have more than 32 labels per metric"));
    }
    let mut i: usize = 0;
    while i < n
        invariant
            i <= n,
            labels.wf(),
            n == labels.spec_pairs().len(),
            n == labels@.len(),
            n <= 32,
            forall|j: int|
                0 <= j < i ==> spec_valid_label_key((#[trigger] labels.spec_pairs()[j]).0)
                    && spec_valid_label_value(labels.spec_pairs()[j].1),
        decreases n - i,
    {
        let (key, value) = labels.pair_at(i);
        match validate_label_key(key.as_str()) {
            Ok(_) => {},
            Err(e) => {
                proof {
                    labels.lemma_view();
                }
                return Err(e);
            },
        }
        match validate_label_value(value.as_str()) {
            Ok(_) => {},
            Err(e) => {
                proof {
                    labels.lemma_view();
                }
                return Err(e);
            },
        }
        i = i + 1;
    }
    proof {
        labels.lemma_view();
    }
    Ok(())
}

/// Validate a metric value: it must be finite (neither NaN nor infinite).
pub fn validate_metric_value(value: Scalar) -> (r: Result<(), MetricsError>)
    ensures
        r.is_ok() <==> spec_is_finite(value.spec_bits()),
        r.is_err() ==> (r->Err_0).kind == ErrorKind::Validation && (r->Err_0).field@
            == "value"@ && (r->Err_0).message@ == "Metric value must be a finite number"@,
{
    if !value.is_finite() {
        return Err(metrics_error("value", "Metric value must be a finite number"));
    }
    Ok(())
}

/// Validate a counter value: it must be finite and non-negative, counters
/// being monotone.
pub fn validate_counter_value(value: Scalar) -> (r: Result<(), MetricsError>)
    ensures
        r.is_ok() <==> spec_is_finite(value.spec_bits()) && !spec_is_negative(value.spec_bits()),
        r.is_err() ==> (r->Err_0).kind == ErrorKind::Validation && (r->Err_0).field@
            == "value"@,
        r.is_err() && !spec_is_finite(value.spec_bits()) ==> (r->Err_0).message@
            == "Metric value must be a finite number"@,
        r.is_err() && spec_is_finite(value.spec_bits()) ==> (r->Err_0).message@
            == "Counter values must be non-negative"@,
{
    validate_metric_value(value)?;
    if value.is_negative() {
        return Err(metrics_error("value", "Counter values must be non-negative"));
    }
    Ok(())
}


/// An ASCII whitespace character, as trimming understands it.
pub open spec fn spec_is_space(c: char) -> bool {
    c == ' ' || c == '\t' || c == '\n' || c == '\r' || c == '\u{b}' || c == '\u{c}'
}

/// The ASCII-lowercase image of a character; other characters are unchanged.
pub open spec fn spec_lower_char(c: char) -> char {
    if 'A' <= c && c <= 'Z' {
        (((c as u8) + 32) as char)
    } else {
        c
    }
}

/// The sequence with leading whitespace removed.
pub open spec fn spec_trim_start(s: Seq<char>) -> Seq<char>
    decreases s.len(),
{
    if s.len() > 0 && spec_is_space(s[0]) {
        spec_trim_start(s.drop_first())
    } else {
        s
    }
}

/// The sequence with trailing whitespace removed.
pub open spec fn spec_trim_end(s: Seq<char>) -> Seq<char>
    decreases s.len(),
{
    if s.len() > 0 && spec_is_space(s.last()) {
        spec_trim_end(s.drop_last())
    } else {
        s
    }
}

/// The sequence with leading and trailing whitespace removed.
pub open spec fn spec_trim(s: Seq<char>) -> Seq<char> {
    spec_trim_end(spec_trim_start(s))
}

/// The sequence lowercased character by character.
pub open spec fn spec_lower(s: Seq<char>) -> Seq<char> {
    s.map_values(|c: char| spec_lower_char(c))
}

/// The sequence with every run of underscores collapsed to one underscore.
pub open spec fn spec_collapse(s: Seq<char>) -> Seq<char>
    decreases s.len(),
{
    if s.len() == 0 {
        s
    } else if s.len() >= 2 && s[0] == '_' && s[1] == '_' {
        spec_collapse(s.drop_first())
    } else {
        seq![s[0]] + spec_collapse(s.drop_first())
    }
}

/// The normal form of a metric name: trimmed, lowercased, underscore runs
/// collapsed.
pub open spec fn spec_normalize(s: Seq<char>) -> Seq<char> {
    spec_collapse(spec_lower(spec_trim(s)))
}

/// Exec check of `spec_is_space`.
fn is_space(c: char) -> (r: bool)
    ensures
        r == spec_is_space(c),
{
    c == ' ' || c == '\t' || c == '\n' || c == '\r' || c == '\u{b}' || c == '\u{c}'
}

/// Exec counterpart of `spec_lower_char`.
fn lower_char(c: char) -> (r: char)
    ensures
        r == spec_lower_char(c),
{
    if 'A' <= c && c <= 'Z' {
        ((c as u8) + 32) as char
    } else {
        c
    }
}

/// Dropping a wholly-whitespace prefix does not change the trimmed value.
proof fn lemma_trim_start_skip(s: Seq<char>, j: int)
    requires
        0 <= j <= s.len(),
        forall|i: int| 0 <= i < j ==> spec_is_space(#[trigger] s[i]),
    ensures
        spec_trim_start(s) == spec_trim_start(s.skip(j)),
    decreases j,
{
    if j > 0 {
        assert(spec_is_space(s[0]));
        assert(s.drop_first() =~= s.skip(1));
        lemma_trim_start_skip(s.skip(1), j - 1);
        assert(s.skip(1).skip(j - 1) =~= s.skip(j));
    } else {
        assert(s.skip(0) =~= s);
    }
}

/// Dropping a wholly-whitespace suffix does not change the trimmed value.
proof fn lemma_trim_end_take(s: Seq<char>, j: int)
    requires
        0 <= j <= s.len(),
        forall|i: int| j <= i < s.len() ==> spec_is_space(#[trigger] s[i]),
    ensures
        spec_trim_end(s) == spec_trim_end(s.take(j)),
    decreases s.len() - j,
{
    if j < s.len() {
        assert(spec_is_space(s.last()));
        assert(s.drop_last() =~= s.take(s.len() - 1));
        lemma_trim_end_take(s.take(s.len() - 1), j);
        assert(s.take(s.len() - 1).take(j) =~= s.take(j));
    } else {
        assert(s.take(j) =~= s);
    }
}

/// Normalize a metric name: trim whitespace from the ends, lowercase ASCII
/// letters, and collapse each run of underscores to a single underscore.
/// This is for display and comparison; it is never applied silently to
/// stored data.
///
/// Folding and trimming are ASCII.  Every name the validator accepts is
/// ASCII already — the character classes admit nothing else — so on every
/// valid name this agrees with full Unicode folding; and the ASCII model is
/// what makes idempotence (`lemma_normalize_idempotent`) a theorem rather
/// than a claim about an outside case-folding table.
pub fn normalize_metric_name(name: &str) -> (r: String)
    ensures
        r@ == spec_normalize(name@),
{
    let n = name.unicode_len();
    // Find the first index holding a non-whitespace character.
    let mut a: usize = 0;
    while a < n && is_space(name.get_char(a))
        invariant
            a <= n,
            n == name@.len(),
            forall|i: int| 0 <= i < a ==> spec_is_space(#[trigger] name@[i]),
        decreases n - a,
    {
        a = a + 1;
    }
    proof {
        lemma_trim_start_skip(name@, a as int);
    }
    if a == n {
        // All whitespace: the normal form is empty.
        proof {
            assert(name@.skip(a as int) =~= Seq::<char>::empty());
        }
        return String::new();
    }
    // Find the index one past the last non-whitespace character.
    let mut b: usize = n;
    while b > a && is_space(name.get_char(b - 1))
        invariant
            a <= b <= n,
            n == name@.len(),
            forall|i: int| b <= i < n ==> spec_is_space(#[trigger] name@[i]),
        decreases b,
    {
        b = b - 1;
    }
    proof {
        let st = name@.skip(a as int);
        lemma_trim_end_take(st, b - a);
        assert(st.take(b - a) =~= name@.subrange(a as int, b as int));
        assert(!spec_is_space(st[0]));
        assert(!spec_is_space(st.take(b - a).last()));
        assert(spec_trim(name@) == name@.subrange(a as int, b as int));
    }
    let ghost tr = name@.subrange(a as int, b as int);
    let ghost t = spec_lower(tr);
    let mut out = String::new();
    proof {
        assert(t.skip(0) =~= t);
        assert(out@ + spec_collapse(t) =~= spec_collapse(t));
    }
    let mut i: usize = a;
    while i < b
        invariant
            a <= i <= b <= n,
            n == name@.len(),
            t == spec_lower(name@.subrange(a as int, b as int)),
            t.len() == b - a,
            forall|j: int| 0 <= j < t.len() ==> t[j] == spec_lower_char(name@[a + j]),
            out@ + spec_collapse(t.skip(i - a)) == spec_collapse(t),
        decreases b - i,
    {
        let c = lower_char(name.get_char(i));
        let ghost j = i - a;
        proof {
            assert(t.skip(j).len() > 0);
            assert(t.skip(j)[0] == t[j]);
            assert(t.skip(j).drop_first() =~= t.skip(j + 1));
        }
        if c == '_' && i + 1 < b && lower_char(name.get_char(i + 1)) == '_' {
            proof {
                assert(t.skip(j)[1] == t[j + 1]);
                assert(spec_collapse(t.skip(j)) == spec_collapse(t.skip(j + 1)));
            }
        } else {
            let ghost out0 = out@;
            push_char(&mut out, c);
            proof {
                if t.skip(j).len() >= 2 {
                    assert(t.skip(j)[1] == t[j + 1]);
                }
                assert(spec_collapse(t.skip(j)) == seq![t[j]] + spec_collapse(t.skip(j + 1)));
                assert(out0.push(c) + spec_collapse(t.skip(j + 1)) =~= out0 + spec_collapse(
                    t.skip(j),
                ));
            }
        }
        i = i + 1;
    }
    proof {
        assert(t.skip(b - a) =~= Seq::<char>::empty());
        assert(out@ + Seq::<char>::empty() =~= out@);
    }
    out
}


/// Lowercasing is idempotent character by character.
proof fn lemma_lower_char_idempotent(c: char)
    ensures
        spec_lower_char(spec_lower_char(c)) == spec_lower_char(c),
{
}

/// Lowercasing neither makes nor unmakes whitespace.
proof fn lemma_space_lower(c: char)
    ensures
        spec_is_space(spec_lower_char(c)) == spec_is_space(c),
{
}

/// Shape of a collapsed sequence: it keeps the first and last characters and
/// draws every character from the input, and it holds no two adjacent
/// underscores.
proof fn lemma_collapse_props(s: Seq<char>)
    ensures
        s.len() > 0 ==> spec_collapse(s).len() > 0,
        s.len() > 0 ==> spec_collapse(s).last() == s.last(),
        s.len() > 0 ==> spec_collapse(s)[0] == s[0],
        forall|i: int|
            0 <= i < spec_collapse(s).len() ==> exists|j: int|
                0 <= j < s.len() && #[trigger] spec_collapse(s)[i] == s[j],
        forall|i: int|
            0 <= i && i + 1 < spec_collapse(s).len() ==> !((#[trigger] spec_collapse(s)[i]) == '_'
                && spec_collapse(s)[i + 1] == '_'),
    decreases s.len(),
{
    if s.len() == 0 {
    } else if s.len() >= 2 && s[0] == '_' && s[1] == '_' {
        lemma_collapse_props(s.drop_first());
        let d = s.drop_first();
        assert(d.last() == s.last());
        assert(d[0] == s[1]);
        assert forall|i: int| 0 <= i < spec_collapse(s).len() implies exists|j: int|
            0 <= j < s.len() && #[trigger] spec_collapse(s)[i] == s[j] by {
            let j = choose|j: int| 0 <= j < d.len() && spec_collapse(d)[i] == d[j];
            assert(spec_collapse(s)[i] == s[j + 1]);
        }
    } else {
        lemma_collapse_props(s.drop_first());
        let d = s.drop_first();
        let r = spec_collapse(s);
        let rt = spec_collapse(d);
        assert(r == seq![s[0]] + rt);
        if d.len() > 0 {
            assert(d.last() == s.last());
            assert(r.last() == rt.last());
            assert(rt[0] == d[0]);
            assert(d[0] == s[1]);
        }
        assert forall|i: int| 0 <= i < r.len() implies exists|j: int|
            0 <= j < s.len() && #[trigger] r[i] == s[j] by {
            if i == 0 {
                assert(r[0] == s[0]);
            } else {
                let j = choose|j: int| 0 <= j < d.len() && rt[i - 1] == d[j];
                assert(r[i] == s[j + 1]);
            }
        }
        assert forall|i: int| 0 <= i && i + 1 < r.len() implies !((#[trigger] r[i]) == '_' && r[i
            + 1] == '_') by {
            if i == 0 {
                if r.len() >= 2 {
                    assert(r[1] == rt[0]);
                }
            } else {
                assert(r[i] == rt[i - 1] && r[i + 1] == rt[i]);
            }
        }
    }
}

/// A sequence without adjacent underscores is already collapsed.
proof fn lemma_collapse_fixed(s: Seq<char>)
    requires
        forall|i: int|
            0 <= i && i + 1 < s.len() ==> !((#[trigger] s[i]) == '_' && s[i + 1] == '_'),
    ensures
        spec_collapse(s) == s,
    decreases s.len(),
{
    if s.len() > 0 {
        let d = s.drop_first();
        assert(forall|i: int|
            0 <= i && i + 1 < d.len() ==> !((#[trigger] d[i]) == '_' && d[i + 1] == '_')) by {
            assert(forall|i: int| 0 <= i < d.len() ==> d[i] == s[i + 1]);
        }
        lemma_collapse_fixed(d);
        assert(spec_collapse(s) =~= s);
    }
}

/// A trimmed-from-the-start sequence starts with a non-space character.
proof fn lemma_trim_start_props(s: Seq<char>)
    ensures
        spec_trim_start(s).len() > 0 ==> !spec_is_space(spec_trim_start(s)[0]),
    decreases s.len(),
{
    if s.len() > 0 && spec_is_space(s[0]) {
        lemma_trim_start_props(s.drop_first());
    }
}

/// A trimmed-from-the-end sequence ends with a non-space character and keeps
/// its first character.
proof fn lemma_trim_end_props(s: Seq<char>)
    ensures
        spec_trim_end(s).len() > 0 ==> !spec_is_space(spec_trim_end(s).last()),
        spec_trim_end(s).len() > 0 ==> spec_trim_end(s)[0] == s[0],
    decreases s.len(),
{
    if s.len() > 0 && spec_is_space(s.last()) {
        lemma_trim_end_props(s.drop_last());
    }
}

/// A sequence whose ends are not whitespace is already trimmed.
proof fn lemma_trim_fixed(s: Seq<char>)
    requires
        s.len() == 0 || (!spec_is_space(s[0]) && !spec_is_space(s.last())),
    ensures
        spec_trim(s) == s,
{
}

/// Normalization is idempotent: normalizing a normal form changes nothing.
/// Trimming, lowercasing and underscore-collapsing are each fixed on the
/// result of the whole.
pub proof fn lemma_normalize_idempotent(s: Seq<char>)
    ensures
        spec_normalize(spec_normalize(s)) == spec_normalize(s),
{
    let tr = spec_trim(s);
    let t = spec_lower(tr);
    let r = spec_collapse(t);
    lemma_trim_start_props(s);
    lemma_trim_end_props(spec_trim_start(s));
    lemma_collapse_props(t);
    assert(forall|i: int| 0 <= i < t.len() ==> t[i] == spec_lower_char(tr[i]));
    // The ends of the normal form are not whitespace.
    if t.len() > 0 {
        assert(!spec_is_space(tr[0]) && !spec_is_space(tr.last())) by {
            assert(tr[0] == spec_trim_start(s)[0]);
        }
        lemma_space_lower(tr[0]);
        lemma_space_lower(tr.last());
        assert(t[0] == spec_lower_char(tr[0]));
        assert(t.last() == spec_lower_char(tr.last()));
    }
    assert(r.len() == 0 || (!spec_is_space(r[0]) && !spec_is_space(r.last())));
    lemma_trim_fixed(r);
    // Every character of the normal form is already lowercase.
    assert forall|i: int| 0 <= i < r.len() implies spec_lower_char(#[trigger] r[i]) == r[i] by {
        let j = choose|j: int| 0 <= j < t.len() && r[i] == t[j];
        lemma_lower_char_idempotent(tr[j]);
    }
    assert(spec_lower(r) =~= r);
    // The normal form holds no adjacent underscores.
    lemma_collapse_fixed(r);
    assert(spec_normalize(r) == r);
}

/// A metric name holding a space character is never valid.
pub proof fn lemma_name_with_space_invalid(s: Seq<char>, i: int)
    requires
        0 <= i < s.len(),
        s[i] == ' ',
    ensures
        !spec_valid_metric_name(s),
{
    assert(!spec_name_char(' '));
}

/// A label set cannot grow past 32 entries and stay valid: inserting a fresh
/// 33rd key into a full valid set makes it invalid.
pub proof fn lemma_33rd_label_invalid(
    m: Map<Seq<char>, Seq<char>>,
    k: Seq<char>,
    v: Seq<char>,
)
    requires
        m.dom().finite(),
        m.len() == 32,
        !m.dom().contains(k),
    ensures
        !spec_valid_labels(m.insert(k, v)),
{
    assert(m.insert(k, v).len() == 33) by {
        vstd::map::axiom_map_insert_domain(m, k, v);
        assert(m.insert(k, v).dom() =~= m.dom().insert(k));
    }
}

/// Bucket bounds that histogram validation accepts: at least one bound, all
/// finite, all distinct as numeric values.
pub open spec fn spec_valid_bucket_bounds(s: Seq<Scalar>) -> bool {
    &&& s.len() > 0
    &&& forall|i: int| 0 <= i < s.len() ==> spec_is_finite((#[trigger] s[i]).spec_bits())
    &&& !spec_has_value_dup(s)
}

/// Two positions hold the same numeric value.
pub open spec fn spec_has_value_dup(s: Seq<Scalar>) -> bool {
    exists|i: int, j: int|
        0 <= i < j < s.len() && spec_canonical((#[trigger] s[i]).spec_bits()) == spec_canonical(
            (#[trigger] s[j]).spec_bits(),
        )
}

/// The order keys of distinct numeric values are distinct.
proof fn lemma_order_key_injective(a: u64, b: u64)
    ensures
        spec_canonical(a) != spec_canonical(b) ==> spec_order_key(a) != spec_order_key(b),
{
    let ca = spec_canonical(a);
    let cb = spec_canonical(b);
    assert(ca != cb ==> (if ca & 0x8000_0000_0000_0000u64 != 0 {
        !ca
    } else {
        ca | 0x8000_0000_0000_0000u64
    }) != (if cb & 0x8000_0000_0000_0000u64 != 0 {
        !cb
    } else {
        cb | 0x8000_0000_0000_0000u64
    })) by (bit_vector);
}

/// Every finite value orders strictly below positive infinity.
proof fn lemma_key_finite_below_infinity(b: u64)
    requires
        spec_is_finite(b),
    ensures
        spec_order_key(b) < spec_order_key(POS_INFINITY_BITS),
{
    assert(0x7FF0_0000_0000_0000u64 | 0x8000_0000_0000_0000u64 == 0xFFF0_0000_0000_0000u64)
        by (bit_vector);
    assert(0x7FF0_0000_0000_0000u64 & 0x8000_0000_0000_0000u64 == 0u64) by (bit_vector);
    assert(spec_order_key(POS_INFINITY_BITS) == 0xFFF0_0000_0000_0000u64);
    if b == 0x8000_0000_0000_0000u64 {
        assert(0u64 & 0x8000_0000_0000_0000u64 == 0u64) by (bit_vector);
        assert(0u64 | 0x8000_0000_0000_0000u64 == 0x8000_0000_0000_0000u64) by (bit_vector);
    } else if b & 0x8000_0000_0000_0000u64 != 0 {
        assert(b & 0x7FF0_0000_0000_0000u64 != 0x7FF0_0000_0000_0000u64 && b
            & 0x8000_0000_0000_0000u64 != 0 ==> !b < 0xFFF0_0000_0000_0000u64) by (bit_vector);
    } else {
        assert(b & 0x7FF0_0000_0000_0000u64 != 0x7FF0_0000_0000_0000u64 && b
            & 0x8000_0000_0000_0000u64 == 0 ==> (b | 0x8000_0000_0000_0000u64)
            < 0xFFF0_0000_0000_0000u64) by (bit_vector);
    }
}

/// A sequence repeats a numeric value exactly when its multiset holds some
/// encoding twice, or two distinct encodings of one value.
proof fn lemma_dup_iff_multiset(s: Seq<Scalar>)
    ensures
        spec_has_value_dup(s) <==> exists|x: Scalar, y: Scalar|
            spec_canonical(x.spec_bits()) == spec_canonical(y.spec_bits()) && ((x == y
                && s.to_multiset().count(x) >= 2) || (x != y && #[trigger] s.to_multiset().count(x)
                >= 1 && #[trigger] s.to_multiset().count(y) >= 1)),
{
    broadcast use vstd::seq_lib::group_to_multiset_ensures;

    if spec_has_value_dup(s) {
        let (i, j) = choose|i: int, j: int|
            0 <= i < j < s.len() && spec_canonical((#[trigger] s[i]).spec_bits()) == spec_canonical(
                (#[trigger] s[j]).spec_bits(),
            );
        if s[i] == s[j] {
            let x = s[i];
            assert(s.remove(i).to_multiset() =~= s.to_multiset().remove(x));
            assert(s.remove(i)[j - 1] == x);
            assert(s.remove(i).contains(x));
            assert(s.remove(i).to_multiset().count(x) >= 1);
            assert(s.to_multiset().count(x) >= 2);
        } else {
            assert(s.contains(s[i]) && s.contains(s[j]));
            let x = s[i];
            let y = s[j];
            assert(s.to_multiset().count(x) >= 1 && s.to_multiset().count(y) >= 1);
        }
    }
    if exists|x: Scalar, y: Scalar|
        spec_canonical(x.spec_bits()) == spec_canonical(y.spec_bits()) && ((x == y
            && s.to_multiset().count(x) >= 2) || (x != y && #[trigger] s.to_multiset().count(x) >= 1
            && #[trigger] s.to_multiset().count(y) >= 1)) {
        let (x, y) = choose|x: Scalar, y: Scalar|
            spec_canonical(x.spec_bits()) == spec_canonical(y.spec_bits()) && ((x == y
                && s.to_multiset().count(x) >= 2) || (x != y && #[trigger] s.to_multiset().count(x)
                >= 1 && #[trigger] s.to_multiset().count(y) >= 1));
        if x == y {
            assert(s.to_multiset().count(x) >= 2);
            assert(s.contains(x));
            let i = choose|i: int| 0 <= i < s.len() && s[i] == x;
            assert(s.remove(i).to_multiset() =~= s.to_multiset().remove(x));
            assert(s.remove(i).to_multiset().count(x) >= 1);
            assert(s.remove(i).contains(x));
            let j0 = choose|j: int| 0 <= j < s.remove(i).len() && s.remove(i)[j] == x;
            let j = if j0 < i {
                j0
            } else {
                j0 + 1
            };
            assert(s[j] == x);
            if i < j {
                assert(spec_canonical(s[i].spec_bits()) == spec_canonical(s[j].spec_bits()));
            } else {
                assert(spec_canonical(s[j].spec_bits()) == spec_canonical(s[i].spec_bits()));
            }
        } else {
            assert(s.contains(x) && s.contains(y));
            let i = choose|i: int| 0 <= i < s.len() && s[i] == x;
            let j = choose|j: int| 0 <= j < s.len() && s[j] == y;
            assert(i != j);
        }
    }
}

/// Scalars in ascending numeric order, equal values adjacent.
pub open spec fn spec_sorted_scalars(s: Seq<Scalar>) -> bool {
    forall|i: int, j: int|
        0 <= i < j < s.len() ==> spec_order_key((#[trigger] s[i]).spec_bits()) <= spec_order_key(
            (#[trigger] s[j]).spec_bits(),
        )
}

/// Sort scalars into ascending numeric order by insertion.
fn sort_scalars(v: &Vec<Scalar>) -> (r: Vec<Scalar>)
    ensures
        r@.len() == v@.len(),
        r@.to_multiset() == v@.to_multiset(),
        spec_sorted_scalars(r@),
{
    broadcast use vstd::seq_lib::group_to_multiset_ensures;
    broadcast use vstd::multiset::group_multiset_axioms;

    let mut r: Vec<Scalar> = Vec::new();
    let n = v.len();
    let mut i: usize = 0;
    proof {
        assert(v@.take(0) =~= Seq::<Scalar>::empty());
        assert(r@.to_multiset() =~= v@.take(0).to_multiset());
    }
    while i < n
        invariant
            i <= n,
            n == v@.len(),
            r@.len() == i,
            r@.to_multiset() == v@.take(i as int).to_multiset(),
            spec_sorted_scalars(r@),
        decreases n - i,
    {
        let x = v[i];
        let m = r.len();
        let mut pos: usize = 0;
        while pos < m && !x.lt(&r[pos])
            invariant
                pos <= m,
                m == r@.len(),
                forall|j: int|
                    0 <= j < pos ==> spec_order_key((#[trigger] r@[j]).spec_bits())
                        <= spec_order_key(x.spec_bits()),
            decreases m - pos,
        {
            pos = pos + 1;
        }
        let ghost r0 = r@;
        r.insert(pos, x);
        proof {
            let r1 = r@;
            r0.to_multiset_ensures();
            r1.to_multiset_ensures();
            v@.take(i as int).to_multiset_ensures();
            v@.take(i + 1).to_multiset_ensures();
            assert(r1 == r0.insert(pos as int, x));
            assert(r1.remove(pos as int) =~= r0);
            assert(r1[pos as int] == x);
            assert(r1.contains(x));
            assert(r1.to_multiset().count(x) > 0);
            assert(r1.remove(pos as int).to_multiset() =~= r1.to_multiset().remove(
                r1[pos as int],
            ));
            assert(r0.to_multiset() =~= r1.to_multiset().remove(x));
            assert(r1.to_multiset() =~= r0.to_multiset().insert(x));
            assert(v@.take(i + 1) =~= v@.take(i as int).push(x));
            assert(v@.take(i + 1).to_multiset() =~= v@.take(i as int).to_multiset().insert(x));
            assert(spec_sorted_scalars(r1)) by {
                assert(forall|j: int| 0 <= j < pos ==> r1[j] == r0[j]);
                assert(forall|j: int| pos < j < r1.len() ==> r1[j] == r0[j - 1]);
            }
        }
        i = i + 1;
    }
    proof {
        assert(v@.take(n as int) =~= v@);
    }
    r
}

/// Validate histogram bucket bounds.  There must be at least one bound, all
/// bounds must be finite, and no value may repeat.  On success the bounds
/// come back in ascending order with a positive-infinity overflow bound
/// appended (the bounds themselves, being finite, never include it).
pub fn validate_histogram_buckets(buckets: &Vec<Scalar>) -> (r: Result<Vec<Scalar>, MetricsError>)
    ensures
        r.is_ok() <==> spec_valid_bucket_bounds(buckets@),
        r.is_err() ==> (r->Err_0).kind == ErrorKind::Validation,
        r.is_err() && buckets@.len() == 0 ==> (r->Err_0).field@ == "buckets"@
            && (r->Err_0).message@ == "Histogram must have at least one bucket"@,
        r.is_err() && buckets@.len() > 0 && (exists|i: int|
            0 <= i < buckets@.len() && !spec_is_finite((#[trigger] buckets@[i]).spec_bits()))
            ==> (r->Err_0).field@ == "value"@,
        r.is_err() && buckets@.len() > 0 && (forall|i: int|
            0 <= i < buckets@.len() ==> spec_is_finite((#[trigger] buckets@[i]).spec_bits()))
            ==> (r->Err_0).field@ == "buckets"@ && (r->Err_0).message@
            == "Histogram buckets must be unique"@,
        r matches Ok(out) ==> {
            &&& out@.len() == buckets@.len() + 1
            &&& out@.last().spec_bits() == POS_INFINITY_BITS
            &&& out@.take(buckets@.len() as int).to_multiset() == buckets@.to_multiset()
            &&& forall|i: int, j: int| 0 <= i < j < out@.len() ==> spec_lt(
                (#[trigger] out@[i]).spec_bits(),
                (#[trigger] out@[j]).spec_bits(),
            )
        },
{
    broadcast use vstd::seq_lib::group_to_multiset_ensures;

    let n = buckets.len();
    if n == 0 {
        return Err(metrics_error("buckets", "Histogram must have at least one bucket"));
    }
    let mut i: usize = 0;
    while i < n
        invariant
            i <= n,
            n == buckets@.len(),
            forall|j: int| 0 <= j < i ==> spec_is_finite((#[trigger] buckets@[j]).spec_bits()),
        decreases n - i,
    {
        validate_metric_value(buckets[i])?;
        i = i + 1;
    }
    let sorted = sort_scalars(buckets);
    // Look for a repeated value: after sorting, equal values sit side by side.
    let mut k: usize = 0;
    while k + 1 < n
        invariant
            k < n,
            n == sorted@.len(),
            n == buckets@.len(),
            spec_sorted_scalars(sorted@),
            sorted@.to_multiset() == buckets@.to_multiset(),
            forall|j: int|
                0 <= j < buckets@.len() ==> spec_is_finite((#[trigger] buckets@[j]).spec_bits()),
            forall|j: int|
                0 <= j < k ==> spec_canonical((#[trigger] sorted@[j]).spec_bits()) != spec_canonical(
                    sorted@[j + 1].spec_bits(),
                ),
        decreases n - k,
    {
        if sorted[k].same_value(&sorted[k + 1]) {
            proof {
                assert(spec_has_value_dup(sorted@));
                lemma_dup_iff_multiset(sorted@);
                lemma_dup_iff_multiset(buckets@);
                assert(spec_has_value_dup(buckets@));
            }
            return Err(metrics_error("buckets", "Histogram buckets must be unique"));
        }
        k = k + 1;
    }
    proof {
        // No value repeats anywhere: keys rise strictly, so values differ.
        assert forall|i2: int, j2: int| 0 <= i2 < j2 < sorted@.len() implies spec_canonical(
            (#[trigger] sorted@[i2]).spec_bits(),
        ) != spec_canonical((#[trigger] sorted@[j2]).spec_bits()) by {
            lemma_order_key_injective(sorted@[i2].spec_bits(), sorted@[i2 + 1].spec_bits());
            assert(spec_order_key(sorted@[i2].spec_bits()) < spec_order_key(
                sorted@[i2 + 1].spec_bits(),
            ));
            if i2 + 1 < j2 {
                assert(spec_order_key(sorted@[i2 + 1].spec_bits()) <= spec_order_key(
                    sorted@[j2].spec_bits(),
                ));
            }
            lemma_order_key_injective(sorted@[i2].spec_bits(), sorted@[j2].spec_bits());
            if spec_canonical(sorted@[i2].spec_bits()) == spec_canonical(sorted@[j2].spec_bits()) {
                assert(spec_order_key(sorted@[i2].spec_bits()) == spec_order_key(
                    sorted@[j2].spec_bits(),
                ));
            }
        }
        assert(!spec_has_value_dup(sorted@));
        lemma_dup_iff_multiset(sorted@);
        lemma_dup_iff_multiset(buckets@);
        assert(!spec_has_value_dup(buckets@));
    }
    let mut out = sorted;
    out.push(Scalar::pos_infinity());
    proof {
        assert(out@.take(n as int) =~= out@.drop_last());
        assert(out@.drop_last() =~= sorted@);
        assert forall|i2: int, j2: int| 0 <= i2 < j2 < out@.len() implies spec_lt(
            (#[trigger] out@[i2]).spec_bits(),
            (#[trigger] out@[j2]).spec_bits(),
        ) by {
            if j2 < out@.len() - 1 {
                lemma_order_key_injective(out@[i2].spec_bits(), out@[j2].spec_bits());
            } else {
                assert(out@[j2].spec_bits() == POS_INFINITY_BITS);
                assert(sorted@.contains(out@[i2]));
                assert(sorted@.to_multiset().count(out@[i2]) >= 1);
                assert(buckets@.contains(out@[i2]));
                assert(spec_is_finite(out@[i2].spec_bits()));
                lemma_key_finite_below_infinity(out@[i2].spec_bits());
            }
        }
    }
    Ok(out)
}


/// Pairs in strictly ascending key order.
pub open spec fn spec_sorted_by_keys(ps: Seq<LabelPair>) -> bool {
    forall|i: int, j: int|
        0 <= i < j < ps.len() ==> lex_lt((#[trigger] ps[i]).0, (#[trigger] ps[j]).0)
}

/// The rendering of label pairs: `key=value`, comma separated, in order.
pub open spec fn spec_render_pairs(ps: Seq<LabelPair>) -> Seq<char>
    decreases ps.len(),
{
    if ps.len() == 0 {
        Seq::<char>::empty()
    } else if ps.len() == 1 {
        ps[0].0 + seq!['='] + ps[0].1
    } else {
        ps[0].0 + seq!['='] + ps[0].1 + seq![','] + spec_render_pairs(ps.drop_first())
    }
}

/// Rendering one more pair appends a comma (after a non-empty prefix), the
/// key, an equals sign and the value.
proof fn lemma_render_push(ps: Seq<LabelPair>, p: LabelPair)
    ensures
        ps.len() == 0 ==> spec_render_pairs(ps.push(p)) == p.0 + seq!['='] + p.1,
        ps.len() > 0 ==> spec_render_pairs(ps.push(p)) == spec_render_pairs(ps) + seq![','] + p.0
            + seq!['='] + p.1,
    decreases ps.len(),
{
    let q = ps.push(p);
    if ps.len() == 0 {
        assert(q[0] == p);
        assert(spec_render_pairs(q) =~= p.0 + seq!['='] + p.1);
    } else {
        lemma_render_push(ps.drop_first(), p);
        assert(q.drop_first() =~= ps.drop_first().push(p));
        assert(q[0] == ps[0]);
        if ps.len() == 1 {
            assert(spec_render_pairs(q) =~= spec_render_pairs(ps) + seq![','] + p.0 + seq!['=']
                + p.1);
        } else {
            assert(spec_render_pairs(q) =~= spec_render_pairs(ps) + seq![','] + p.0 + seq!['=']
                + p.1);
        }
    }
}

/// Render labels for display and diagnostics: a deterministic
/// `key=value,key=value` line with the keys in ascending lexicographic
/// order; the empty set renders as `{}`.  The rendered pair sequence is the
/// one strictly-sorted arrangement of the label set.
#[verifier::rlimit(30)]
pub fn format_labels(labels: &Labels) -> (r: String)
    ensures
        labels@.len() == 0 ==> r@ == "{}"@,
        labels@.len() > 0 ==> (exists|ps: Seq<LabelPair>|
            {
                &&& spec_sorted_by_keys(ps)
                &&& ps.len() == labels@.len()
                &&& map_of(ps) == labels@
                &&& r@ == spec_render_pairs(ps)
            }),
{
    proof {
        use_type_invariant(labels);
        labels.lemma_view();
    }
    let n = labels.len();
    if n == 0 {
        return String::from_str("{}");
    }
    let mut sorted: Vec<(String, String)> = Vec::new();
    let mut i: usize = 0;
    proof {
        assert(pairs_view(sorted@) =~= Seq::<LabelPair>::empty());
        assert(labels.spec_pairs().take(0) =~= Seq::<LabelPair>::empty());
    }
    while i < n
        invariant
            i <= n,
            labels.wf(),
            n == labels.spec_pairs().len(),
            n == labels@.len(),
            pairs_view(sorted@).len() == i,
            sorted@.len() == i,
            spec_sorted_by_keys(pairs_view(sorted@)),
            map_of(pairs_view(sorted@)) == map_of(labels.spec_pairs().take(i as int)),
        decreases n - i,
    {
        let (kr, vr) = labels.pair_at(i);
        let key = kr.clone();
        let val = vr.clone();
        let m = sorted.len();
        let mut pos: usize = 0;
        while pos < m && str_lex_lt(sorted[pos].0.as_str(), key.as_str())
            invariant
                pos <= m,
                m == sorted@.len(),
                key@ == labels.spec_pairs()[i as int].0,
                forall|j: int| 0 <= j < pos ==> lex_lt((#[trigger] pairs_view(sorted@)[j]).0, key@),
            decreases m - pos,
        {
            pos = pos + 1;
        }
        let ghost sp0 = pairs_view(sorted@);
        let ghost newp = (key@, val@);
        sorted.insert(pos, (key, val));
        proof {
            broadcast use vstd::seq_lib::group_seq_properties;

            labels.lemma_view();
            let sp1 = pairs_view(sorted@);
            let taken = labels.spec_pairs().take(i as int);
            let taken1 = labels.spec_pairs().take(i + 1);
            assert(sp1 =~= sp0.insert(pos as int, newp));
            assert(sp1.len() == i + 1);
            assert(sp1[pos as int] == newp);
            assert(forall|j: int| 0 <= j < pos ==> sp1[j] == sp0[j]);
            assert(forall|j: int| pos < j < sp1.len() ==> sp1[j] == sp0[j - 1]);
            // The new key is fresh: it is not among the first i keys of the
            // label set, whose map the sorted prefix carries.
            lemma_map_of_props(sp0);
            lemma_map_of_props(taken);
            assert(keys_of(taken) =~= keys_of(labels.spec_pairs()).take(i as int));
            assert(keys_of(taken).no_duplicates());
            assert(forall|j: int|
                0 <= j < taken.len() ==> (#[trigger] keys_of(taken)[j]) == labels.spec_pairs()[j].0);
            assert(!map_of(taken).dom().contains(newp.0)) by {
                assert(forall|j: int|
                    0 <= j < i ==> (#[trigger] labels.spec_pairs()[j]).0 == keys_of(
                        labels.spec_pairs(),
                    )[j]);
                assert(keys_of(labels.spec_pairs())[i as int] == newp.0);
            }
            assert(keys_of(sp0).no_duplicates()) by {
                assert(forall|j: int| 0 <= j < sp0.len() ==> (#[trigger] keys_of(sp0)[j]) == sp0[j].0);
                assert forall|a: int, b: int|
                    0 <= a < sp0.len() && 0 <= b < sp0.len() && a != b implies keys_of(sp0)[a]
                    != keys_of(sp0)[b] by {
                    if a < b {
                        lemma_lex_trichotomy(sp0[a].0, sp0[b].0);
                    } else {
                        lemma_lex_trichotomy(sp0[b].0, sp0[a].0);
                    }
                }
            }
            assert(forall|j: int| 0 <= j < sp0.len() ==> (#[trigger] sp0[j]).0 != newp.0) by {
                assert(forall|j: int| 0 <= j < sp0.len() ==> (#[trigger] keys_of(sp0)[j]) == sp0[j].0);
                assert forall|j: int| 0 <= j < sp0.len() implies map_of(sp0).dom().contains(
                    (#[trigger] sp0[j]).0,
                ) by {
                    assert(keys_of(sp0)[j] == sp0[j].0);
                    assert(keys_of(sp0).contains(sp0[j].0));
                    assert(keys_of(sp0).to_set().contains(sp0[j].0));
                }
            }
            // Order around the insertion point.
            if pos < m {
                lemma_lex_trichotomy(sp0[pos as int].0, newp.0);
            }
            assert(spec_sorted_by_keys(sp1)) by {
                assert forall|i2: int, j2: int| 0 <= i2 < j2 < sp1.len() implies lex_lt(
                    (#[trigger] sp1[i2]).0,
                    (#[trigger] sp1[j2]).0,
                ) by {
                    if i2 == pos {
                        assert(j2 > pos);
                        assert(sp1[j2] == sp0[j2 - 1]);
                        assert(!lex_lt(sp0[pos as int].0, newp.0));
                        assert(lex_lt(newp.0, sp0[pos as int].0));
                        if j2 - 1 > pos {
                            lemma_lex_transitive(newp.0, sp0[pos as int].0, sp0[j2 - 1].0);
                        }
                    } else if j2 == pos {
                        assert(i2 < pos);
                        assert(sp1[i2] == sp0[i2]);
                        assert(lex_lt(sp0[i2].0, newp.0));
                    } else if i2 < pos && j2 > pos {
                        assert(sp1[i2] == sp0[i2] && sp1[j2] == sp0[j2 - 1]);
                        if j2 - 1 == i2 {
                            assert(lex_lt(sp0[i2].0, newp.0));
                            assert(false);
                        }
                    } else {
                    }
                }
            }
            assert(keys_of(sp1).no_duplicates()) by {
                assert(forall|j: int| 0 <= j < sp1.len() ==> (#[trigger] keys_of(sp1)[j]) == sp1[j].0);
                assert forall|i2: int, j2: int|
                    0 <= i2 < j2 < sp1.len() implies keys_of(sp1)[i2] != keys_of(sp1)[j2] by {
                    lemma_lex_trichotomy(sp1[i2].0, sp1[j2].0);
                }
            }
            // The map grows by exactly the new pair.
            lemma_map_of_props(sp1);
            lemma_map_of_props(taken1);
            assert(taken1.drop_last() =~= taken);
            assert(taken1.last() == labels.spec_pairs()[i as int]);
            assert(map_of(taken1) == map_of(taken).insert(newp.0, newp.1));
            assert(map_of(sp1) =~= map_of(taken1)) by {
                assert(keys_of(sp1).to_set() =~= keys_of(sp0).to_set().insert(newp.0)) by {
                    assert(forall|j: int|
                        0 <= j < sp1.len() ==> (#[trigger] keys_of(sp1)[j]) == sp1[j].0);
                    assert(forall|j: int|
                        0 <= j < sp0.len() ==> (#[trigger] keys_of(sp0)[j]) == sp0[j].0);
                    assert forall|k: Seq<char>| keys_of(sp1).to_set().contains(k) implies keys_of(
                        sp0,
                    ).to_set().contains(k) || k == newp.0 by {
                        let j = choose|j: int| 0 <= j < keys_of(sp1).len() && keys_of(sp1)[j] == k;
                        if j != pos {
                            let j0 = if j < pos {
                                j
                            } else {
                                j - 1
                            };
                            assert(keys_of(sp0)[j0] == k);
                        }
                    }
                    assert forall|k: Seq<char>|
                        keys_of(sp0).to_set().contains(k) || k == newp.0 implies keys_of(
                        sp1,
                    ).to_set().contains(k) by {
                        if k == newp.0 {
                            assert(keys_of(sp1)[pos as int] == k);
                        } else {
                            let j = choose|j: int|
                                0 <= j < keys_of(sp0).len() && keys_of(sp0)[j] == k;
                            let j1 = if j < pos {
                                j
                            } else {
                                j + 1
                            };
                            assert(keys_of(sp1)[j1] == k);
                        }
                    }
                }
                assert(map_of(sp1).dom() =~= map_of(taken1).dom());
                assert forall|k: Seq<char>| map_of(sp1).dom().contains(k) implies map_of(sp1)[k]
                    == map_of(taken1)[k] by {
                    let j = choose|j: int| 0 <= j < sp1.len() && (#[trigger] keys_of(sp1)[j]) == k;
                    assert(sp1[j].0 == k);
                    assert(map_of(sp1)[k] == sp1[j].1);
                    if j == pos {
                        assert(map_of(taken1)[k] == newp.1);
                    } else {
                        let j0 = if j < pos {
                            j
                        } else {
                            j - 1
                        };
                        assert(sp0[j0] == sp1[j]);
                        assert(map_of(sp0)[k] == sp0[j0].1);
                        assert(map_of(taken)[k] == map_of(sp0)[k]);
                        assert(k != newp.0);
                        assert(map_of(taken1)[k] == map_of(taken)[k]);
                    }
                }
            }
        }
        i = i + 1;
    }
    proof {
        assert(labels.spec_pairs().take(n as int) =~= labels.spec_pairs());
    }
    // Render the sorted pairs.
    let ghost sps = pairs_view(sorted@);
    let total = sorted.len();
    let mut out = String::new();
    let mut idx: usize = 0;
    proof {
        assert(sps.take(0) =~= Seq::<LabelPair>::empty());
        assert(out@ =~= spec_render_pairs(sps.take(0)));
    }
    while idx < total
        invariant
            idx <= total,
            total == sorted@.len(),
            sps == pairs_view(sorted@),
            out@ == spec_render_pairs(sps.take(idx as int)),
        decreases total - idx,
    {
        let ghost before = out@;
        if idx > 0 {
            push_char(&mut out, ',');
        }
        out.append(sorted[idx].0.as_str());
        push_char(&mut out, '=');
        out.append(sorted[idx].1.as_str());
        proof {
            lemma_render_push(sps.take(idx as int), sps[idx as int]);
            assert(sps.take(idx + 1) =~= sps.take(idx as int).push(sps[idx as int]));
            assert(sps[idx as int] == (sorted@[idx as int].0@, sorted@[idx as int].1@));
            if idx == 0 {
                assert(out@ =~= spec_render_pairs(sps.take(idx + 1)));
            } else {
                assert(out@ =~= spec_render_pairs(sps.take(idx + 1)));
            }
        }
        idx = idx + 1;
    }
    proof {
        assert(sps.take(total as int) =~= sps);
        assert(spec_sorted_by_keys(sps) && sps.len() == labels@.len() && map_of(sps) == labels@
            && out@ == spec_render_pairs(sps));
    }
    out
}



/// Keys of a strictly sorted pair sequence are pairwise distinct.
proof fn lemma_sorted_keys_distinct(ps: Seq<LabelPair>)
    requires
        spec_sorted_by_keys(ps),
    ensures
        keys_of(ps).no_duplicates(),
{
    assert(forall|j: int| 0 <= j < ps.len() ==> (#[trigger] keys_of(ps)[j]) == ps[j].0);
    assert forall|a: int, b: int|
        0 <= a < ps.len() && 0 <= b < ps.len() && a != b implies keys_of(ps)[a] != keys_of(
        ps,
    )[b] by {
        if a < b {
            lemma_lex_trichotomy(ps[a].0, ps[b].0);
        } else {
            lemma_lex_trichotomy(ps[b].0, ps[a].0);
        }
    }
}

/// Rendering is deterministic, as a law: a strictly key-sorted pair
/// sequence is determined by the label map it describes, so two sorted
/// arrangements of the same label set are one and the same — and with the
/// contract of `format_labels`, equal label sets render as equal text,
/// whatever order their labels were added in.
pub proof fn lemma_sorted_pairs_unique(ps1: Seq<LabelPair>, ps2: Seq<LabelPair>)
    requires
        spec_sorted_by_keys(ps1),
        spec_sorted_by_keys(ps2),
        map_of(ps1) == map_of(ps2),
    ensures
        ps1 == ps2,
    decreases ps1.len(),
{
    broadcast use vstd::seq_lib::group_seq_properties;

    lemma_sorted_keys_distinct(ps1);
    lemma_sorted_keys_distinct(ps2);
    lemma_map_of_props(ps1);
    lemma_map_of_props(ps2);
    assert(ps1.len() == map_of(ps1).len());
    assert(ps2.len() == map_of(ps2).len());
    if ps1.len() == 0 {
        assert(ps1 =~= ps2);
    } else {
        let m = map_of(ps1);
        let l1 = ps1.last();
        let l2 = ps2.last();
        assert(forall|j: int| 0 <= j < ps1.len() ==> (#[trigger] keys_of(ps1)[j]) == ps1[j].0);
        assert(forall|j: int| 0 <= j < ps2.len() ==> (#[trigger] keys_of(ps2)[j]) == ps2[j].0);
        // Each last key is the greatest key of the common domain, so the
        // last keys agree, and with them the last values.
        assert(m.dom().contains(l1.0)) by {
            assert(keys_of(ps1)[ps1.len() - 1] == l1.0);
            assert(keys_of(ps1).to_set().contains(l1.0));
        }
        assert(m.dom().contains(l2.0)) by {
            assert(keys_of(ps2)[ps2.len() - 1] == l2.0);
            assert(keys_of(ps2).to_set().contains(l2.0));
        }
        assert(l1.0 == l2.0) by {
            if l1.0 != l2.0 {
                // l2.0 occurs in ps1 before the last slot, so it orders
                // below l1.0 — and symmetrically, a contradiction.
                assert(keys_of(ps1).to_set().contains(l2.0));
                assert(keys_of(ps1).contains(l2.0));
                let j1 = choose|j: int| 0 <= j < keys_of(ps1).len() && keys_of(ps1)[j] == l2.0;
                assert(ps1[j1].0 == l2.0);
                assert(j1 < ps1.len() - 1);
                assert(lex_lt(l2.0, l1.0));
                assert(keys_of(ps2).to_set().contains(l1.0));
                assert(keys_of(ps2).contains(l1.0));
                let j2 = choose|j: int| 0 <= j < keys_of(ps2).len() && keys_of(ps2)[j] == l1.0;
                assert(ps2[j2].0 == l1.0);
                assert(j2 < ps2.len() - 1);
                assert(lex_lt(l1.0, l2.0));
                lemma_lex_trichotomy(l1.0, l2.0);
            }
        }
        assert(l1.1 == l2.1) by {
            assert(map_of(ps1)[ps1[ps1.len() - 1].0] == ps1[ps1.len() - 1].1);
            assert(map_of(ps2)[ps2[ps2.len() - 1].0] == ps2[ps2.len() - 1].1);
        }
        // The last pair stripped, the maps still agree: the last key sits in
        // neither remainder.
        let d1 = ps1.drop_last();
        let d2 = ps2.drop_last();
        lemma_sorted_keys_distinct(d1);
        lemma_sorted_keys_distinct(d2);
        lemma_map_of_props(d1);
        lemma_map_of_props(d2);
        assert(keys_of(d1) =~= keys_of(ps1).drop_last());
        assert(keys_of(d2) =~= keys_of(ps2).drop_last());
        assert(!map_of(d1).dom().contains(l1.0)) by {
            if map_of(d1).dom().contains(l1.0) {
                assert(keys_of(d1).contains(l1.0));
                let j = choose|j: int| 0 <= j < keys_of(d1).len() && keys_of(d1)[j] == l1.0;
                assert(keys_of(ps1)[j] == l1.0);
                assert(keys_of(ps1)[ps1.len() - 1] == l1.0);
            }
        }
        assert(!map_of(d2).dom().contains(l2.0)) by {
            if map_of(d2).dom().contains(l2.0) {
                assert(keys_of(d2).contains(l2.0));
                let j = choose|j: int| 0 <= j < keys_of(d2).len() && keys_of(d2)[j] == l2.0;
                assert(keys_of(ps2)[j] == l2.0);
                assert(keys_of(ps2)[ps2.len() - 1] == l2.0);
            }
        }
        assert(map_of(ps1) == map_of(d1).insert(l1.0, l1.1));
        assert(map_of(ps2) == map_of(d2).insert(l2.0, l2.1));
        assert(map_of(d1) =~= map_of(d2)) by {
            assert(map_of(d1) =~= map_of(ps1).remove(l1.0));
            assert(map_of(d2) =~= map_of(ps2).remove(l2.0));
        }
        lemma_sorted_pairs_unique(d1, d2);
        assert forall|j: int| 0 <= j < ps1.len() implies ps1[j] == ps2[j] by {
            if j < ps1.len() - 1 {
                assert(ps1[j] == d1[j]);
                assert(ps2[j] == d2[j]);
            }
        }
        assert(ps1 =~= ps2);
    }
}

/// Pre-defined bucket bound sets for common histogram patterns.  Bounds are
/// IEEE-754 binary64 bit patterns; each table ends with positive infinity.
/// Linearly or exponentially spaced tables are arithmetic on native
/// floating-point values and live outside the verified library.
pub struct HistogramBuckets;

impl HistogramBuckets {
    /// Standard latency bounds for HTTP request durations, in seconds:
    /// 0.001, 0.002, 0.005, 0.01, 0.025, 0.05, 0.1, 0.25, 0.5, 1, 2.5, 5,
    /// 10, and infinity.
    pub fn latency() -> (r: Vec<Scalar>)
        ensures
            r@.len() == 14,
            r@.map_values(|s: Scalar| s.spec_bits()) =~= seq![
                0x3F50624DD2F1A9FCu64,
                0x3F60624DD2F1A9FCu64,
                0x3F747AE147AE147Bu64,
                0x3F847AE147AE147Bu64,
                0x3F9999999999999Au64,
                0x3FA999999999999Au64,
                0x3FB999999999999Au64,
                0x3FD0000000000000u64,
                0x3FE0000000000000u64,
                0x3FF0000000000000u64,
                0x4004000000000000u64,
                0x4014000000000000u64,
                0x4024000000000000u64,
                POS_INFINITY_BITS,
            ],
            r@.last().spec_bits() == POS_INFINITY_BITS,
    {
        let mut r: Vec<Scalar> = Vec::new();
        r.push(Scalar::from_bits(0x3F50624DD2F1A9FC));
        r.push(Scalar::from_bits(0x3F60624DD2F1A9FC));
        r.push(Scalar::from_bits(0x3F747AE147AE147B));
        r.push(Scalar::from_bits(0x3F847AE147AE147B));
        r.push(Scalar::from_bits(0x3F9999999999999A));
        r.push(Scalar::from_bits(0x3FA999999999999A));
        r.push(Scalar::from_bits(0x3FB999999999999A));
        r.push(Scalar::from_bits(0x3FD0000000000000));
        r.push(Scalar::from_bits(0x3FE0000000000000));
        r.push(Scalar::from_bits(0x3FF0000000000000));
        r.push(Scalar::from_bits(0x4004000000000000));
        r.push(Scalar::from_bits(0x4014000000000000));
        r.push(Scalar::from_bits(0x4024000000000000));
        r.push(Scalar::pos_infinity());
        r
    }

    /// Standard payload-size bounds, in bytes: powers of four from 64 up to
    /// 16777216, then infinity.
    pub fn size_bytes() -> (r: Vec<Scalar>)
        ensures
            r@.len() == 11,
            r@.map_values(|s: Scalar| s.spec_bits()) =~= seq![
                0x4050000000000000u64,
                0x4070000000000000u64,
                0x4090000000000000u64,
                0x40B0000000000000u64,
                0x40D0000000000000u64,
                0x40F0000000000000u64,
                0x4110000000000000u64,
                0x4130000000000000u64,
                0x4150000000000000u64,
                0x4170000000000000u64,
                POS_INFINITY_BITS,
            ],
            r@.last().spec_bits() == POS_INFINITY_BITS,
    {
        let mut r: Vec<Scalar> = Vec::new();
        r.push(Scalar::from_bits(0x4050000000000000));
        r.push(Scalar::from_bits(0x4070000000000000));
        r.push(Scalar::from_bits(0x4090000000000000));
        r.push(Scalar::from_bits(0x40B0000000000000));
        r.push(Scalar::from_bits(0x40D0000000000000));
        r.push(Scalar::from_bits(0x40F0000000000000));
        r.push(Scalar::from_bits(0x4110000000000000));
        r.push(Scalar::from_bits(0x4130000000000000));
        r.push(Scalar::from_bits(0x4150000000000000));
        r.push(Scalar::from_bits(0x4170000000000000));
        r.push(Scalar::pos_infinity());
        r
    }
}

} // verus!
