//! Logging port: levels, key/value fields and a logger that adds context fields.

use vstd::prelude::*;
use crate::text::join;

verus! {

#[derive(Debug, Clone, Copy, PartialEq, Eq)]
pub enum LogLevel {
    Debug,
    Info,
    Warn,
    Error,
}

#[derive(Debug, PartialEq, Eq)]
pub struct LogField {
    pub key: &'static str,
    pub value: String,
}

impl Clone for LogField {
    fn clone(&self) -> (r: Self)
        ensures
            r == *self,
    {
        LogField { key: self.key, value: self.value.clone() }
    }
}

impl LogField {
    pub fn new(key: &'static str, value: impl Into<String>) -> (r: Self)
        ensures
            r.key == key,
    {
        LogField { key, value: value.into() }
    }
}

/// Application-level logging port; the implementation decides where records go.
pub trait Logger {
    fn log(&self, level: LogLevel, message: &str, fields: &[LogField]);
}

/// Adds constant context fields to any `Logger`.
#[derive(Clone, Copy)]
pub struct ContextLogger<'a> {
    inner: &'a dyn Logger,
    ctx: &'a [LogField],
}

impl<'a> ContextLogger<'a> {
    pub fn new(inner: &'a dyn Logger, ctx: &'a [LogField]) -> (r: Self)
        ensures
            r.context()@ == ctx@,
    {
        ContextLogger { inner, ctx }
    }

    pub closed spec fn context(self) -> &'a [LogField] {
        self.ctx
    }

    /// A logger that adds `more` to every record and then passes it to this one.
    pub fn with<'b>(&'b self, more: &'b [LogField]) -> (r: ContextLogger<'b>)
        ensures
            r.context()@ == more@,
    {
        ContextLogger { inner: self, ctx: more }
    }
}

/// The context fields followed by the record's own fields.
pub fn merge_fields(ctx: &[LogField], fields: &[LogField]) -> (r: Vec<LogField>)
    ensures
        r@ == ctx@ + fields@,
{
    let mut merged: Vec<LogField> = Vec::new();
    let mut i: usize = 0;
    while i < ctx.len()
        invariant
            i <= ctx.len(),
            merged@ == ctx@.take(i as int),
        decreases ctx.len() - i,
    {
        merged.push(ctx[i].clone());
        assert(merged@ =~= ctx@.take(i + 1));
        i = i + 1;
    }
    let mut j: usize = 0;
    while j < fields.len()
        invariant
            j <= fields.len(),
            i == ctx.len(),
            merged@ == ctx@ + fields@.take(j as int),
        decreases fields.len() - j,
    {
        merged.push(fields[j].clone());
        assert(merged@ =~= ctx@ + fields@.take(j + 1));
        j = j + 1;
    }
    assert(ctx@.take(ctx.len() as int) =~= ctx@);
    assert(fields@.take(fields.len() as int) =~= fields@);
    merged
}

impl Logger for ContextLogger<'_> {
    /// Logs the context fields first, then the record's own fields.
    fn log(&self, level: LogLevel, message: &str, fields: &[LogField]) {
        let merged = merge_fields(self.ctx, fields);
        self.inner.log(level, message, merged.as_slice());
    }
}


/// The fields of a record as `key=value` pairs separated by spaces.
pub open spec fn fields_text(fields: Seq<LogField>) -> Seq<char> {
    join(fields.map_values(|f: LogField| f.key@ + "="@ + f.value@), " "@)
}

/// The fields of a record as `key=value` pairs separated by spaces (empty without fields).
pub fn format_fields(fields: &[LogField]) -> (r: String)
    ensures
        r@ == fields_text(fields@),
{
    let ghost ts = fields@.map_values(|f: LogField| f.key@ + "="@ + f.value@);
    let mut out = String::new();
    let mut i: usize = 0;
    while i < fields.len()
        invariant
            i <= fields.len(),
            ts == fields@.map_values(|f: LogField| f.key@ + "="@ + f.value@),
            out@ == join(ts.take(i as int), " "@),
        decreases fields.len() - i,
    {
        proof {
            assert(ts.take(i + 1).drop_last() =~= ts.take(i as int));
            assert(ts.take(i + 1).last() == ts[i as int]);
        }
        if i > 0 {
            out.append(" ");
        } else {
            assert(ts.take(1)[0] == ts[0]);
        }
        out.append(fields[i].key);
        out.append("=");
        out.append(fields[i].value.as_str());
        i = i + 1;
        assert(out@ =~= join(ts.take(i as int), " "@));
    }
    assert(ts.take(fields.len() as int) =~= ts);
    out
}
} // verus!
