//! Field validation of request bodies, and the failure details it reports.
//!
//! A failed validation is a report: for each field that failed, either the
//! codes of the rules it broke, the report of a nested value, or the
//! reports of the items of a nested list, by index.

use vstd::prelude::*;

use crate::errors::AppError;
use crate::text::{chars_of, digits_of, push_digits, push_str, string_of};

verus! {

/// The failures of one validated value, field by field.
#[derive(Debug)]
pub struct ValidationReport {
    pub fields: Vec<FieldReport>,
}

/// The failures of one field.
#[derive(Debug)]
pub struct FieldReport {
    pub field: String,
    pub issues: FieldIssues,
}

/// How a field failed.
#[derive(Debug)]
pub enum FieldIssues {
    /// The codes of the rules the field's value broke.
    Field(Vec<String>),
    /// The report of the nested value the field holds.
    Struct(Box<ValidationReport>),
    /// The reports of the failed items of the list the field holds.
    List(Vec<IndexedReport>),
}

/// The report of one item of a list, by its index.
#[derive(Debug)]
pub struct IndexedReport {
    pub index: usize,
    pub report: Box<ValidationReport>,
}

/// The texts of a sequence of strings.
pub open spec fn texts(v: Seq<String>) -> Seq<Seq<char>> {
    v.map_values(|s: String| s@)
}

/// Each detail with a prefix.
pub open spec fn prefixed(prefix: Seq<char>, ds: Seq<Seq<char>>) -> Seq<Seq<char>> {
    ds.map_values(|d: Seq<char>| prefix + d)
}

/// The details of a report: `field: code` for each broken rule,
/// `field.detail` for each detail of a nested value and
/// `field[index].detail` for each detail of a list item, field after field.
pub open spec fn fields_details(fs: Seq<FieldReport>) -> Seq<Seq<char>>
    decreases fs,
{
    if fs.len() == 0 {
        Seq::empty()
    } else {
        let f = fs.last();
        fields_details(fs.drop_last()) + issues_details(f.field@, f.issues)
    }
}

/// The details of one field.
pub open spec fn issues_details(field: Seq<char>, issues: FieldIssues) -> Seq<Seq<char>>
    decreases issues,
{
    match issues {
        FieldIssues::Field(codes) => prefixed(field + ": "@, texts(codes@)),
        FieldIssues::Struct(inner) => prefixed(field + "."@, fields_details(inner.fields@)),
        FieldIssues::List(items) => items_details(field, items@),
    }
}

/// The details of the items of a list field.
pub open spec fn items_details(field: Seq<char>, items: Seq<IndexedReport>) -> Seq<Seq<char>>
    decreases items,
{
    if items.len() == 0 {
        Seq::empty()
    } else {
        let it = items.last();
        items_details(field, items.drop_last()) + prefixed(
            field + "["@ + digits_of(it.index as nat) + "]."@,
            fields_details(it.report.fields@),
        )
    }
}

/// The details of a report.
pub open spec fn report_details(r: ValidationReport) -> Seq<Seq<char>> {
    fields_details(r.fields@)
}

fn push_prefixed(out: &mut Vec<String>, prefix: &Vec<char>, ds: &Vec<String>)
    ensures
        texts(final(out)@) == texts(old(out)@) + prefixed(prefix@, texts(ds@)),
{
    let mut i: usize = 0;
    while i < ds.len()
        invariant
            i <= ds.len(),
            texts(out@) == texts(old(out)@) + prefixed(prefix@, texts(ds@.subrange(0, i as int))),
        decreases ds.len() - i,
    {
        let mut v = prefix.clone();
        assert(v@ =~= prefix@);
        push_str(&mut v, ds[i].as_str());
        let ghost before = out@;
        out.push(string_of(&v));
        assert(texts(out@) =~= texts(before).push(prefix@ + ds@[i as int]@));
        assert(texts(ds@.subrange(0, i + 1)) =~= texts(ds@.subrange(0, i as int)).push(
            ds@[i as int]@,
        ));
        assert(prefixed(prefix@, texts(ds@.subrange(0, i + 1))) =~= prefixed(
            prefix@,
            texts(ds@.subrange(0, i as int)),
        ).push(prefix@ + ds@[i as int]@));
        i = i + 1;
    }
    assert(ds@.subrange(0, ds.len() as int) =~= ds@);
}

/// The details of a field report.
fn field_details(field: &String, issues: &FieldIssues) -> (d: Vec<String>)
    ensures
        texts(d@) == issues_details(field@, *issues),
    decreases *issues,
{
    let mut out: Vec<String> = Vec::new();
    match issues {
        FieldIssues::Field(codes) => {
            let mut prefix = chars_of(field.as_str());
            push_str(&mut prefix, ": ");
            push_prefixed(&mut out, &prefix, codes);
        },
        FieldIssues::Struct(inner) => {
            let mut prefix = chars_of(field.as_str());
            push_str(&mut prefix, ".");
            let ds = details_of(inner);
            push_prefixed(&mut out, &prefix, &ds);
        },
        FieldIssues::List(items) => {
            let mut i: usize = 0;
            while i < items.len()
                invariant
                    *issues is List,
                    issues->List_0 == *items,
                    i <= items.len(),
                    texts(out@) == items_details(field@, items@.subrange(0, i as int)),
                decreases items.len() - i,
            {
                let it = &items[i];
                let mut prefix = chars_of(field.as_str());
                push_str(&mut prefix, "[");
                push_digits(it.index as u64, &mut prefix);
                push_str(&mut prefix, "].");
                proof {
                    let its = issues->List_0;
                    assert(decreases_to!(*issues => its));
                    assert(decreases_to!(its => its@));
                    assert(decreases_to!(its@ => its@[i as int]));
                    assert(decreases_to!(its@[i as int] => its@[i as int].report));
                }
                let ds = details_of(&it.report);
                push_prefixed(&mut out, &prefix, &ds);
                assert(items@.subrange(0, i + 1).drop_last() =~= items@.subrange(0, i as int));
                i = i + 1;
            }
            assert(items@.subrange(0, items.len() as int) =~= items@);
        },
    }
    out
}

/// The details of a failed validation, in field order.
pub fn details_of(r: &ValidationReport) -> (d: Vec<String>)
    ensures
        texts(d@) == report_details(*r),
    decreases *r,
{
    let mut out: Vec<String> = Vec::new();
    let mut i: usize = 0;
    while i < r.fields.len()
        invariant
            i <= r.fields.len(),
            texts(out@) == fields_details(r.fields@.subrange(0, i as int)),
        decreases r.fields.len() - i,
    {
        let f = &r.fields[i];
        assert(decreases_to!(*r => r.fields@[i as int].issues));
        let ds = field_details(&f.field, &f.issues);
        let ghost before = out@;
        let mut ds2 = ds;
        out.append(&mut ds2);
        assert(texts(out@) =~= texts(before) + texts(ds@));
        assert(r.fields@.subrange(0, i + 1).drop_last() =~= r.fields@.subrange(0, i as int));
        i = i + 1;
    }
    assert(r.fields@.subrange(0, r.fields.len() as int) =~= r.fields@);
    out
}

/// The error answering a failed validation: its details, in field order.
pub fn validation_error(r: &ValidationReport) -> (e: AppError)
    ensures
        e matches AppError::ValidationError(d) && texts(d@) == report_details(*r),
{
    AppError::ValidationError(details_of(r))
}

} // verus!
