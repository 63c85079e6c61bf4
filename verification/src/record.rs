//! Structured event records and their single-line JSON rendering.
//!
//! Every event becomes one JSON object with the fixed members `fields`,
//! `level`, `name`, `target` and `timestamp`, in that order, the event's own
//! key/value pairs sitting under `fields` ordered by key.  The whole line is
//! pinned down exactly, except the timestamp text, which an outside calendar
//! library computes from the seconds and nanoseconds alone.

use vstd::prelude::*;
use crate::json::{
    append_bool, append_i64, append_quoted, append_u64, decimal, decimal_signed, push_char, quoted,
};
use crate::level::{spec_level_name, level_name, str_eq, Level};

verus! {

/// The namespace whose events the sink keeps; all others are dropped.
pub fn target_matches(target: &str) -> (r: bool)
    ensures
        r == (target@ == "service"@),
{
    str_eq(target, "service")
}

/// One recorded field value: a number, a boolean, text, the description of
/// an error, or the debug-style textual fallback for anything else.
#[derive(Debug)]
pub enum FieldValue {
    Int(i64),
    UInt(u64),
    Bool(bool),
    Text(String),
    ErrorText(String),
    DebugText(String),
}

/// Strict lexicographic order on character sequences, by scalar value.
pub open spec fn chars_lt(a: Seq<char>, b: Seq<char>) -> bool
    decreases a.len(),
{
    if b.len() == 0 {
        false
    } else if a.len() == 0 {
        true
    } else if (a[0] as u32) < (b[0] as u32) {
        true
    } else if a[0] == b[0] {
        chars_lt(a.drop_first(), b.drop_first())
    } else {
        false
    }
}

/// The order is a strict total order: exactly one of `a < b`, `a == b`,
/// `b < a` holds.
pub proof fn lemma_chars_trichotomy(a: Seq<char>, b: Seq<char>)
    ensures
        chars_lt(a, b) || chars_lt(b, a) || a == b,
        !(chars_lt(a, b) && chars_lt(b, a)),
        chars_lt(a, b) ==> a != b,
    decreases a.len(),
{
    if a.len() == 0 && b.len() == 0 {
        assert(a =~= b);
    } else if a.len() > 0 && b.len() > 0 {
        if a[0] == b[0] {
            lemma_chars_trichotomy(a.drop_first(), b.drop_first());
            if a.drop_first() == b.drop_first() {
                assert forall|k: int| 0 <= k < a.len() implies a[k] == b[k] by {
                    if k > 0 {
                        assert(a[k] == a.drop_first()[k - 1]);
                        assert(b[k] == b.drop_first()[k - 1]);
                    }
                }
                assert(a =~= b);
            }
            if a == b {
                assert(a.drop_first() =~= b.drop_first());
            }
        } else {
            assert(a[0] as u32 != b[0] as u32) by {
                if a[0] as u32 == b[0] as u32 {
                    vstd::utf8::char_u32_cast(a[0], a[0] as u32);
                    vstd::utf8::char_u32_cast(b[0], b[0] as u32);
                }
            }
        }
    }
}

/// Three-way comparison of two strings in the lexicographic order: a
/// negative result means the first is smaller, zero that they are equal.
pub fn str_cmp(a: &str, b: &str) -> (o: i8)
    ensures
        o == -1 || o == 0 || o == 1,
        (o == -1) == chars_lt(a@, b@),
        (o == 0) == (a@ == b@),
        (o == 1) == chars_lt(b@, a@),
{
    let an = a.unicode_len();
    let bn = b.unicode_len();
    let min: usize = if an < bn {
        an
    } else {
        bn
    };
    let mut i: usize = 0;
    proof {
        assert(a@.skip(0) =~= a@);
        assert(b@.skip(0) =~= b@);
    }
    while i < min
        invariant
            an == a@.len(),
            bn == b@.len(),
            min == if an < bn {
                an as int
            } else {
                bn as int
            },
            i <= min,
            forall|k: int| 0 <= k < i ==> a@[k] == b@[k],
            chars_lt(a@, b@) == chars_lt(a@.skip(i as int), b@.skip(i as int)),
            chars_lt(b@, a@) == chars_lt(b@.skip(i as int), a@.skip(i as int)),
            (a@ == b@) == (a@.skip(i as int) == b@.skip(i as int) && an == bn),
        decreases min - i,
    {
        let ca = a.get_char(i);
        let cb = b.get_char(i);
        proof {
            let sa = a@.skip(i as int);
            let sb = b@.skip(i as int);
            assert(sa[0] == a@[i as int]);
            assert(sb[0] == b@[i as int]);
            assert(sa.drop_first() =~= a@.skip(i + 1 as int));
            assert(sb.drop_first() =~= b@.skip(i + 1 as int));
            if ca == cb {
                assert(chars_lt(sa, sb) == chars_lt(sa.drop_first(), sb.drop_first()));
                assert(chars_lt(sb, sa) == chars_lt(sb.drop_first(), sa.drop_first()));
                if sa.drop_first() == sb.drop_first() && an == bn {
                    assert forall|k: int| 0 <= k < sa.len() implies sa[k] == sb[k] by {
                        if k > 0 {
                            assert(sa[k] == sa.drop_first()[k - 1]);
                            assert(sb[k] == sb.drop_first()[k - 1]);
                        }
                    }
                    assert(sa =~= sb);
                }
                if sa == sb {
                    assert(sa.drop_first() =~= sb.drop_first());
                }
            }
        }
        if (ca as u32) < (cb as u32) {
            return -1;
        }
        if (cb as u32) < (ca as u32) {
            return 1;
        }
        i = i + 1;
    }
    proof {
        let sa = a@.skip(min as int);
        let sb = b@.skip(min as int);
        assert(sa.len() == an - min);
        assert(sb.len() == bn - min);
        if an == bn {
            assert(sa.len() == 0 && sb.len() == 0);
            assert(sa =~= sb);
        } else if an < bn {
            assert(sa.len() == 0 && sb.len() > 0);
            assert(chars_lt(sa, sb));
        } else {
            assert(sb.len() == 0 && sa.len() > 0);
            assert(chars_lt(sb, sa));
        }
    }
    if an == bn {
        0
    } else if an < bn {
        -1
    } else {
        1
    }
}

/// Keys strictly increase from entry to entry.
pub open spec fn keys_sorted(entries: Seq<(String, FieldValue)>) -> bool {
    forall|i: int| 0 <= i && i + 1 < entries.len()
        ==> chars_lt(#[trigger] entries[i].0@, entries[i + 1].0@)
}

/// Where a key/value pair lands in an ordered run of entries: before the
/// first larger key, in place of an equal one.
pub open spec fn spec_insert(
    entries: Seq<(String, FieldValue)>,
    key: String,
    value: FieldValue,
) -> Seq<(String, FieldValue)>
    decreases entries.len(),
{
    if entries.len() == 0 {
        seq![(key, value)]
    } else if key@ == entries[0].0@ {
        seq![(key, value)] + entries.drop_first()
    } else if chars_lt(key@, entries[0].0@) {
        seq![(key, value)] + entries
    } else {
        seq![entries[0]] + spec_insert(entries.drop_first(), key, value)
    }
}

/// An insertion point found by scanning past every smaller key realises
/// `spec_insert` as one in-place update or one shift.
proof fn lemma_insert_at(
    entries: Seq<(String, FieldValue)>,
    key: String,
    value: FieldValue,
    j: int,
)
    requires
        0 <= j <= entries.len(),
        forall|i: int| 0 <= i < j ==> chars_lt(#[trigger] entries[i].0@, key@),
        j < entries.len() ==> !chars_lt(entries[j].0@, key@),
    ensures
        j < entries.len() && entries[j].0@ == key@ ==> spec_insert(entries, key, value)
            == entries.update(j, (key, value)),
        j == entries.len() || entries[j].0@ != key@ ==> spec_insert(entries, key, value)
            == entries.insert(j, (key, value)),
    decreases entries.len(),
{
    if entries.len() == 0 {
        assert(spec_insert(entries, key, value) =~= entries.insert(0, (key, value)));
    } else if j == 0 {
        if entries[0].0@ == key@ {
            assert(spec_insert(entries, key, value) =~= entries.update(0, (key, value)));
        } else {
            lemma_chars_trichotomy(key@, entries[0].0@);
            assert(chars_lt(key@, entries[0].0@));
            assert(spec_insert(entries, key, value) =~= entries.insert(0, (key, value)));
        }
    } else {
        assert(chars_lt(entries[0].0@, key@));
        lemma_chars_trichotomy(key@, entries[0].0@);
        assert(key@ != entries[0].0@);
        assert(!chars_lt(key@, entries[0].0@));
        let rest = entries.drop_first();
        assert(forall|i: int| 0 <= i < j - 1 ==> chars_lt(#[trigger] rest[i].0@, key@));
        lemma_insert_at(rest, key, value, j - 1);
        if j < entries.len() && entries[j].0@ == key@ {
            assert(rest[j - 1].0@ == key@);
            assert(spec_insert(entries, key, value) == seq![entries[0]] + rest.update(
                j - 1,
                (key, value),
            ));
            assert(seq![entries[0]] + rest.update(j - 1, (key, value)) =~= entries.update(
                j,
                (key, value),
            ));
        } else {
            assert(spec_insert(entries, key, value) == seq![entries[0]] + rest.insert(
                j - 1,
                (key, value),
            ));
            assert(seq![entries[0]] + rest.insert(j - 1, (key, value)) =~= entries.insert(
                j,
                (key, value),
            ));
        }
    }
}

/// The event-specific key/value pairs of one record, ordered by key.
pub struct EventFields {
    pub entries: Vec<(String, FieldValue)>,
}

impl EventFields {
    /// The keys strictly increase, so each key appears at most once.
    pub open spec fn wf(self) -> bool {
        keys_sorted(self.entries@)
    }

    /// No fields recorded yet.
    pub fn new() -> (f: EventFields)
        ensures
            f.wf(),
            f.entries@ == Seq::<(String, FieldValue)>::empty(),
    {
        EventFields { entries: Vec::new() }
    }

    /// Record one field, keeping the entries ordered by key; a second value
    /// under the same key replaces the first.
    pub fn record(&mut self, key: String, value: FieldValue)
        requires
            old(self).wf(),
        ensures
            final(self).wf(),
            final(self).entries@ == spec_insert(old(self).entries@, key, value),
    {
        let mut j: usize = 0;
        let mut stop: usize = 0;
        let n = self.entries.len();
        while j < n && stop == 0
            invariant
                n == self.entries@.len(),
                j <= n,
                stop <= 1,
                forall|i: int| 0 <= i < j ==> chars_lt(#[trigger] self.entries@[i].0@, key@),
                stop == 1 ==> j < n && !chars_lt(self.entries@[j as int].0@, key@),
            decreases n + 1 - j - stop,
        {
            let o = str_cmp(self.entries[j].0.as_str(), key.as_str());
            if o >= 0 {
                stop = 1;
            } else {
                j = j + 1;
            }
        }
        let ghost entries0 = self.entries@;
        if j < self.entries.len() {
            let o = str_cmp(self.entries[j].0.as_str(), key.as_str());
            if o == 0 {
                proof {
                    lemma_insert_at(entries0, key, value, j as int);
                }
                self.entries.set(j, (key, value));
                proof {
                    lemma_update_keeps_sorted(entries0, j as int, (key, value));
                }
                return;
            }
        }
        proof {
            lemma_insert_at(entries0, key, value, j as int);
            if j < entries0.len() {
                lemma_chars_trichotomy(key@, entries0[j as int].0@);
            }
        }
        self.entries.insert(j, (key, value));
        proof {
            lemma_insert_keeps_sorted(entries0, j as int, (key, value));
        }
    }
}

/// Replacing an entry by one with an equal key keeps the keys ordered.
proof fn lemma_update_keeps_sorted(
    entries: Seq<(String, FieldValue)>,
    j: int,
    e: (String, FieldValue),
)
    requires
        keys_sorted(entries),
        0 <= j < entries.len(),
        e.0@ == entries[j].0@,
    ensures
        keys_sorted(entries.update(j, e)),
{
    let u = entries.update(j, e);
    assert forall|i: int| 0 <= i && i + 1 < u.len() implies chars_lt(
        #[trigger] u[i].0@,
        u[i + 1].0@,
    ) by {
        assert(chars_lt(entries[i].0@, entries[i + 1].0@));
    }
}

/// Placing an entry between every smaller key and a larger first successor
/// keeps the keys ordered.
proof fn lemma_insert_keeps_sorted(
    entries: Seq<(String, FieldValue)>,
    j: int,
    e: (String, FieldValue),
)
    requires
        keys_sorted(entries),
        0 <= j <= entries.len(),
        forall|i: int| 0 <= i < j ==> chars_lt(#[trigger] entries[i].0@, e.0@),
        j < entries.len() ==> chars_lt(e.0@, entries[j].0@),
    ensures
        keys_sorted(entries.insert(j, e)),
{
    let u = entries.insert(j, e);
    assert forall|i: int| 0 <= i && i + 1 < u.len() implies chars_lt(
        #[trigger] u[i].0@,
        u[i + 1].0@,
    ) by {
        if i + 1 < j {
            assert(u[i] == entries[i]);
            assert(u[i + 1] == entries[i + 1]);
            assert(chars_lt(entries[i].0@, entries[i + 1].0@));
        } else if i + 1 == j {
            assert(u[i] == entries[i]);
            assert(u[i + 1] == e);
        } else if i == j {
            assert(u[i] == e);
            assert(u[i + 1] == entries[i]);
        } else {
            assert(u[i] == entries[i - 1]);
            assert(u[i + 1] == entries[i]);
            assert(chars_lt(entries[i - 1].0@, entries[i].0@));
        }
    }
}

/// One second past the last instant the record timestamp may name: the end
/// of the year 9999, in seconds from the epoch.
pub const MAX_TIMESTAMP_SECS: u64 = 253_402_300_799;

/// The ISO-8601 text the calendar library prints for an instant given as
/// seconds and nanoseconds from the epoch; it depends on the two alone.
pub uninterp spec fn utc_debug_of(secs: u64, nanos: u32) -> Seq<char>;

/// Relies on chrono: `DateTime::<Utc>::from_timestamp` yields the instant
/// for any in-range seconds and sub-second nanoseconds, and the debug
/// rendering of a `DateTime<Utc>` prints it as ISO-8601 text, a function of
/// that instant alone.
#[verifier::external_body]
fn format_utc(secs: u64, nanos: u32) -> (r: String)
    requires
        secs <= MAX_TIMESTAMP_SECS,
        nanos < 1_000_000_000,
    ensures
        r@ == utc_debug_of(secs, nanos),
{
    let dt: chrono::DateTime<chrono::Utc> = chrono::DateTime::from_timestamp(secs as i64, nanos)
        .expect("timestamp in range");
    format!("{dt:?}")
}

/// The text one field value takes inside the JSON object.
pub open spec fn rendered_value(v: FieldValue) -> Seq<char> {
    match v {
        FieldValue::Int(n) => decimal_signed(n as int),
        FieldValue::UInt(n) => decimal(n as int),
        FieldValue::Bool(b) => if b {
            "true"@
        } else {
            "false"@
        },
        FieldValue::Text(s) => quoted(s@),
        FieldValue::ErrorText(s) => quoted(s@),
        FieldValue::DebugText(s) => quoted(s@),
    }
}

/// The text of one `"key":value` member.
pub open spec fn entry_text(e: (String, FieldValue)) -> Seq<char> {
    quoted(e.0@) + seq![':'] + rendered_value(e.1)
}

/// The members of the fields object, comma-separated, in entry order.
pub open spec fn fields_text(entries: Seq<(String, FieldValue)>) -> Seq<char>
    decreases entries.len(),
{
    if entries.len() == 0 {
        Seq::empty()
    } else if entries.len() == 1 {
        entry_text(entries[0])
    } else {
        fields_text(entries.drop_last()) + seq![','] + entry_text(entries.last())
    }
}

/// The whole fields object.
pub open spec fn rendered_fields(entries: Seq<(String, FieldValue)>) -> Seq<char> {
    seq!['{'] + fields_text(entries) + seq!['}']
}

/// Append one field value.
fn append_value(out: &mut String, v: &FieldValue)
    ensures
        final(out)@ == old(out)@ + rendered_value(*v),
{
    match v {
        FieldValue::Int(n) => append_i64(out, *n),
        FieldValue::UInt(n) => append_u64(out, *n),
        FieldValue::Bool(b) => append_bool(out, *b),
        FieldValue::Text(s) => append_quoted(out, s.as_str()),
        FieldValue::ErrorText(s) => append_quoted(out, s.as_str()),
        FieldValue::DebugText(s) => append_quoted(out, s.as_str()),
    }
}

/// Append the fields object.
fn append_fields(out: &mut String, fields: &EventFields)
    ensures
        final(out)@ == old(out)@ + rendered_fields(fields.entries@),
{
    push_char(out, '{');
    let n = fields.entries.len();
    let mut i: usize = 0;
    while i < n
        invariant
            n == fields.entries@.len(),
            i <= n,
            out@ == old(out)@ + seq!['{'] + fields_text(fields.entries@.take(i as int)),
        decreases n - i,
    {
        if i > 0 {
            push_char(out, ',');
        }
        append_quoted(out, fields.entries[i].0.as_str());
        push_char(out, ':');
        append_value(out, &fields.entries[i].1);
        proof {
            let entries = fields.entries@;
            let pre = entries.take(i as int);
            let post = entries.take(i + 1 as int);
            assert(post.drop_last() =~= pre);
            assert(post.last() == entries[i as int]);
            if i == 0 {
                assert(fields_text(post) == entry_text(entries[0]));
            } else {
                assert(fields_text(post) == fields_text(pre) + seq![','] + entry_text(
                    entries[i as int],
                ));
            }
            assert(out@ =~= old(out)@ + seq!['{'] + fields_text(post));
        }
        i = i + 1;
    }
    push_char(out, '}');
    proof {
        assert(fields.entries@.take(n as int) =~= fields.entries@);
        assert(final(out)@ =~= old(out)@ + rendered_fields(fields.entries@));
    }
}

/// One structured event record: the fixed members every record carries, the
/// event-specific fields under them.
pub struct LogRecord {
    /// Seconds of the record timestamp, from the epoch.
    pub timestamp_secs: u64,
    /// Nanoseconds within the second.
    pub timestamp_nanos: u32,
    pub level: Level,
    /// The emitting namespace.
    pub target: String,
    /// The event identifier.
    pub name: String,
    pub fields: EventFields,
}

impl LogRecord {
    pub open spec fn wf(self) -> bool {
        &&& self.fields.wf()
        &&& self.timestamp_secs <= MAX_TIMESTAMP_SECS
        &&& self.timestamp_nanos < 1_000_000_000
    }
}

/// The one line a record becomes: a JSON object whose members stand in the
/// fixed order `fields`, `level`, `name`, `target`, `timestamp`.
pub open spec fn rendered_record(r: LogRecord) -> Seq<char> {
    seq!['{'] + quoted("fields"@) + seq![':'] + rendered_fields(r.fields.entries@) + seq![',']
        + quoted("level"@) + seq![':'] + quoted(spec_level_name(r.level)) + seq![','] + quoted(
        "name"@,
    ) + seq![':'] + quoted(r.name@) + seq![','] + quoted("target"@) + seq![':'] + quoted(r.target@)
        + seq![','] + quoted("timestamp"@) + seq![':'] + quoted(
        utc_debug_of(r.timestamp_secs, r.timestamp_nanos),
    ) + seq!['}']
}

/// The event sink: renders each event it is handed as one self-contained
/// line of JSON text.
pub struct CustomTracingLayer;

impl CustomTracingLayer {
    /// The single line emitted for one event.
    pub fn on_event(&self, r: &LogRecord) -> (line: String)
        requires
            r.wf(),
        ensures
            line@ == rendered_record(*r),
    {
        let mut out = String::new();
        push_char(&mut out, '{');
        append_quoted(&mut out, "fields");
        push_char(&mut out, ':');
        append_fields(&mut out, &r.fields);
        push_char(&mut out, ',');
        append_quoted(&mut out, "level");
        push_char(&mut out, ':');
        append_quoted(&mut out, level_name(r.level));
        push_char(&mut out, ',');
        append_quoted(&mut out, "name");
        push_char(&mut out, ':');
        append_quoted(&mut out, r.name.as_str());
        push_char(&mut out, ',');
        append_quoted(&mut out, "target");
        push_char(&mut out, ':');
        append_quoted(&mut out, r.target.as_str());
        push_char(&mut out, ',');
        append_quoted(&mut out, "timestamp");
        push_char(&mut out, ':');
        let ts = format_utc(r.timestamp_secs, r.timestamp_nanos);
        append_quoted(&mut out, ts.as_str());
        push_char(&mut out, '}');
        proof {
            assert(out@ =~= rendered_record(*r));
        }
        out
    }
}

} // verus!
