//! Command-line settings as plain values, and their conversion to target settings.

use vstd::prelude::*;

use crate::client::SQLandBodyType;
use crate::client::SQLandSettings;

verus! {

/// The values a caller supplies for one run.
#[derive(Debug)]
pub struct Args {
    /// HTTP method, in any letter case.
    pub method: String,
    /// Raw `name: value` header strings.
    pub headers: Vec<String>,
    /// Raw cookie strings.
    pub cookies: Vec<String>,
    /// Names of the parameters that receive the payload.
    pub params: Vec<String>,
    /// Static `key=value` parameters.
    pub data: Vec<String>,
    /// Send the parameters as a JSON object.
    pub json: bool,
    /// Send the parameters form-encoded.
    pub form: bool,
    /// Fixed latency offset in milliseconds, used when no samples are taken.
    pub offset: u128,
    /// Number of warm-up samples for the latency baseline.
    pub offset_samples: u128,
    /// Skip the filtering of error signatures against a vanilla response.
    pub no_filtering: bool,
    /// Number of concurrent workers.
    pub workers: usize,
    /// The URL to probe.
    pub url: String,
}

/// The list `v` as an option: absent when the list is empty.
pub open spec fn non_empty_list(v: Seq<Seq<char>>) -> Option<Seq<Seq<char>>> {
    if v.len() == 0 {
        None
    } else {
        Some(v)
    }
}

/// The body encoding the two flags select: JSON wins over form, and neither leaves the
/// choice open.
pub open spec fn selected_body_type(json: bool, form: bool) -> Option<SQLandBodyType> {
    if json {
        Some(SQLandBodyType::JSON)
    } else if form {
        Some(SQLandBodyType::FORM)
    } else {
        None
    }
}

/// A copy of a list of strings.
pub fn clone_strings(v: &Vec<String>) -> (copy: Vec<String>)
    ensures
        copy.deep_view() == v.deep_view(),
{
    let mut copy: Vec<String> = Vec::new();
    let mut i: usize = 0;
    while i < v.len()
        invariant
            i <= v.len(),
            copy.len() == i,
            forall|k: int| 0 <= k < i ==> (#[trigger] copy@[k])@ == v@[k]@,
        decreases v.len() - i,
    {
        copy.push(v[i].clone());
        i += 1;
    }
    assert(copy.deep_view() =~= v.deep_view());
    copy
}

/// Converts the caller's values to target settings: every empty list or empty method
/// becomes an absent setting, everything else is carried over unchanged.
pub fn args_to_settings(args: &Args) -> (settings: SQLandSettings)
    ensures
        settings.body_type == selected_body_type(args.json, args.form),
        settings.cookies.deep_view() == non_empty_list(args.cookies.deep_view()),
        settings.data.deep_view() == non_empty_list(args.data.deep_view()),
        settings.headers.deep_view() == non_empty_list(args.headers.deep_view()),
        settings.params.deep_view() == non_empty_list(args.params.deep_view()),
        settings.method.deep_view() == (if args.method@.len() == 0 {
            None
        } else {
            Some(args.method@)
        }),
{
    let mut settings = SQLandSettings {
        body_type: None,
        cookies: None,
        data: None,
        headers: None,
        method: None,
        params: None,
    };

    if args.json {
        settings.body_type = Some(SQLandBodyType::JSON);
    } else if args.form {
        settings.body_type = Some(SQLandBodyType::FORM);
    }

    if args.cookies.len() != 0 {
        settings.cookies = Some(clone_strings(&args.cookies));
    }

    if args.data.len() != 0 {
        settings.data = Some(clone_strings(&args.data));
    }

    if args.headers.len() != 0 {
        settings.headers = Some(clone_strings(&args.headers));
    }

    if !args.method.as_str().is_empty() {
        settings.method = Some(args.method.clone());
    }

    if args.params.len() != 0 {
        settings.params = Some(clone_strings(&args.params));
    }

    settings
}

/// Where the latency baseline comes from.
#[derive(Debug, Clone, Copy, PartialEq, Eq, Structural)]
pub enum OffsetSource {
    /// The fixed offset that the caller gave, in milliseconds.
    Fixed(u128),
    /// A calibration over this many warm-up samples.
    Sampled(u64),
}

/// The source of the baseline that the caller's values select: a calibration where
/// samples are asked for, the fixed offset where none are. More samples than 64 bits can
/// count are taken as that many.
pub open spec fn selected_offset_source(offset: u128, offset_samples: u128) -> OffsetSource {
    if offset_samples == 0 {
        OffsetSource::Fixed(offset)
    } else if offset_samples > u64::MAX {
        OffsetSource::Sampled(u64::MAX)
    } else {
        OffsetSource::Sampled(offset_samples as u64)
    }
}

/// Where the latency baseline of a run comes from.
pub fn offset_source(args: &Args) -> (source: OffsetSource)
    ensures
        source == selected_offset_source(args.offset, args.offset_samples),
{
    if args.offset_samples == 0 {
        OffsetSource::Fixed(args.offset)
    } else if args.offset_samples > u64::MAX as u128 {
        OffsetSource::Sampled(u64::MAX)
    } else {
        OffsetSource::Sampled(args.offset_samples as u64)
    }
}

} // verus!
