//! Line protocol of the VL53L5CX time-of-flight sensor bridge, and the
//! buffer of recent samples that depth lookups choose from.

use vstd::prelude::*;
use crate::text::{
    char_is_ws, find_char, find_in, lemma_run_len_bound, parse_unsigned, range_eq, run_len, scan_run,
    spec_parse_unsigned, spec_trim, str_chars, trim_range,
};

verus! {

/// Number of zones a sample can carry.
pub const MAX_ZONES: usize = 64;

/// The field of a sample line whose value did not parse.
#[derive(Clone, Copy, Debug, PartialEq, Eq, Structural)]
pub enum SampleField {
    Sequence,
    PrintedAtMs,
    SensorTimestampUs,
    Resolution,
    CenterMm,
    MinMm,
    MaxMm,
    ValidZones,
    Zone,
}

/// Why a sample line was rejected.
#[derive(Clone, Copy, Debug, PartialEq, Eq, Structural)]
pub enum SampleParseError {
    /// The value of this field is not an unsigned decimal number of its width.
    InvalidField(SampleField),
    /// The `zones` field lists more than `MAX_ZONES` distances.
    TooManyZones,
}

/// One depth sample as the sensor bridge prints it. Times are microseconds on
/// the host's monotonic clock.
#[derive(Clone, Debug)]
pub struct DepthSample {
    pub sequence: Option<u64>,
    pub sensor_timestamp_us: Option<u64>,
    pub printed_at_ms: Option<u64>,
    pub resolution: Option<u32>,
    pub center_mm: Option<u32>,
    pub min_mm: Option<u32>,
    pub max_mm: Option<u32>,
    pub valid_zones: Option<u32>,
    /// Always `MAX_ZONES` entries; the first `zone_count` were listed.
    pub zones: Vec<u16>,
    pub zone_count: usize,
    pub sampled_at_us: u64,
    pub received_at_us: u64,
}

/// The fields of a sample line, as the line is read token by token.
pub struct SampleFields {
    pub sequence: Option<u64>,
    pub sensor_timestamp_us: Option<u64>,
    pub printed_at_ms: Option<u64>,
    pub resolution: Option<u32>,
    pub center_mm: Option<u32>,
    pub min_mm: Option<u32>,
    pub max_mm: Option<u32>,
    pub valid_zones: Option<u32>,
    pub zones: Seq<u16>,
    pub zone_count: nat,
}

impl DepthSample {
    pub open spec fn fields(&self) -> SampleFields {
        SampleFields {
            sequence: self.sequence,
            sensor_timestamp_us: self.sensor_timestamp_us,
            printed_at_ms: self.printed_at_ms,
            resolution: self.resolution,
            center_mm: self.center_mm,
            min_mm: self.min_mm,
            max_mm: self.max_mm,
            valid_zones: self.valid_zones,
            zones: self.zones@,
            zone_count: self.zone_count as nat,
        }
    }
}

pub open spec fn empty_fields() -> SampleFields {
    SampleFields {
        sequence: None,
        sensor_timestamp_us: None,
        printed_at_ms: None,
        resolution: None,
        center_mm: None,
        min_mm: None,
        max_mm: None,
        valid_zones: None,
        zones: Seq::new(MAX_ZONES as nat, |i: int| 0u16),
        zone_count: 0,
    }
}

/// Reads the comma-separated zone distances `v` into `zones`, starting at
/// entry `count`; gives the zones and the number of entries written so far.
pub open spec fn zones_fold(v: Seq<char>, zones: Seq<u16>, count: nat) -> Result<(Seq<u16>, nat), SampleParseError>
    decreases v.len(),
{
    let k = find_char(v, ',') as int;
    if count >= MAX_ZONES {
        Err(SampleParseError::TooManyZones)
    } else {
        match spec_parse_unsigned(v.take(k), u16::MAX as int) {
            None => Err(SampleParseError::InvalidField(SampleField::Zone)),
            Some(z) => {
                let zones2 = zones.update(count as int, z as u16);
                if k < v.len() {
                    zones_fold(v.skip(k + 1), zones2, count + 1)
                } else {
                    Ok((zones2, count + 1))
                }
            },
        }
    }
}

/// The zones after reading as much of `v` as can be read into `zones` from
/// entry `count`: each distance that parses is stored in turn; reading stops
/// at the first part that does not parse as a `u16`, or when a part would go
/// past the last entry, and the entries not reached keep their values.
pub open spec fn zones_written(v: Seq<char>, zones: Seq<u16>, count: nat) -> Seq<u16>
    decreases v.len(),
{
    let k = find_char(v, ',') as int;
    if count >= MAX_ZONES {
        zones
    } else {
        match spec_parse_unsigned(v.take(k), u16::MAX as int) {
            None => zones,
            Some(z) => {
                let zones2 = zones.update(count as int, z as u16);
                if k < v.len() {
                    zones_written(v.skip(k + 1), zones2, count + 1)
                } else {
                    zones2
                }
            },
        }
    }
}

proof fn lemma_zones_fold_bounds(v: Seq<char>, zones: Seq<u16>, count: nat)
    requires zones.len() == MAX_ZONES,
    ensures
        zones_fold(v, zones, count) matches Ok((z, c)) ==> c <= MAX_ZONES && z.len() == zones.len(),
    decreases v.len(),
{
    let k = find_char(v, ',') as int;
    if count < MAX_ZONES {
        if let Some(zv) = spec_parse_unsigned(v.take(k), u16::MAX as int) {
            if k < v.len() {
                lemma_zones_fold_bounds(v.skip(k + 1), zones.update(count as int, zv as u16), count + 1);
            }
        }
    }
}

pub open spec fn parse_u64_field(value: Seq<char>, field: SampleField) -> Result<u64, SampleParseError> {
    match spec_parse_unsigned(value, u64::MAX as int) {
        Some(v) => Ok(v as u64),
        None => Err(SampleParseError::InvalidField(field)),
    }
}

pub open spec fn parse_u32_field(value: Seq<char>, field: SampleField) -> Result<u32, SampleParseError> {
    match spec_parse_unsigned(value, u32::MAX as int) {
        Some(v) => Ok(v as u32),
        None => Err(SampleParseError::InvalidField(field)),
    }
}

/// The effect of the token `key=value` on the fields read so far. Unknown keys
/// are ignored.
pub open spec fn field_step(st: SampleFields, key: Seq<char>, value: Seq<char>) -> Result<SampleFields, SampleParseError> {
    if key == seq!['s', 'e', 'q'] {
        match parse_u64_field(value, SampleField::Sequence) {
            Ok(v) => Ok(SampleFields { sequence: Some(v), ..st }),
            Err(e) => Err(e),
        }
    } else if key == seq!['t', '_', 'm', 's'] {
        match parse_u64_field(value, SampleField::PrintedAtMs) {
            Ok(v) => Ok(SampleFields { printed_at_ms: Some(v), ..st }),
            Err(e) => Err(e),
        }
    } else if key == seq!['i', 'r', 'q', '_', 'u', 's'] {
        match parse_u64_field(value, SampleField::SensorTimestampUs) {
            Ok(v) => Ok(SampleFields { sensor_timestamp_us: Some(v), ..st }),
            Err(e) => Err(e),
        }
    } else if key == seq!['r', 'e', 's'] {
        match parse_u32_field(value, SampleField::Resolution) {
            Ok(v) => Ok(SampleFields { resolution: Some(v), ..st }),
            Err(e) => Err(e),
        }
    } else if key == seq!['c', 'e', 'n', 't', 'e', 'r', '_', 'm', 'm'] {
        match parse_u32_field(value, SampleField::CenterMm) {
            Ok(v) => Ok(SampleFields { center_mm: Some(v), ..st }),
            Err(e) => Err(e),
        }
    } else if key == seq!['m', 'i', 'n', '_', 'm', 'm'] {
        match parse_u32_field(value, SampleField::MinMm) {
            Ok(v) => Ok(SampleFields { min_mm: Some(v), ..st }),
            Err(e) => Err(e),
        }
    } else if key == seq!['m', 'a', 'x', '_', 'm', 'm'] {
        match parse_u32_field(value, SampleField::MaxMm) {
            Ok(v) => Ok(SampleFields { max_mm: Some(v), ..st }),
            Err(e) => Err(e),
        }
    } else if key == seq!['v', 'a', 'l', 'i', 'd'] {
        match parse_u32_field(value, SampleField::ValidZones) {
            Ok(v) => Ok(SampleFields { valid_zones: Some(v), ..st }),
            Err(e) => Err(e),
        }
    } else if key == seq!['z', 'o', 'n', 'e', 's'] {
        match zones_fold(value, st.zones, 0) {
            Ok((zones, count)) => Ok(SampleFields { zones, zone_count: count, ..st }),
            Err(e) => Err(e),
        }
    } else {
        Ok(st)
    }
}

/// The effect of one whitespace-free token: tokens without `=` are ignored,
/// the others split at their first `=` into key and value.
pub open spec fn token_step(st: SampleFields, tok: Seq<char>) -> Result<SampleFields, SampleParseError> {
    let k = find_char(tok, '=') as int;
    if k < tok.len() {
        field_step(st, tok.take(k), tok.skip(k + 1))
    } else {
        Ok(st)
    }
}

/// Reads the whitespace-separated tokens of `s` in order; the first token that
/// fails decides the error.
pub open spec fn tokens_fold(s: Seq<char>, st: SampleFields) -> Result<SampleFields, SampleParseError>
    decreases s.len(),
{
    let i = run_len(s, true) as int;
    let t = s.skip(i);
    let j = run_len(t, false) as int;
    if i >= s.len() {
        Ok(st)
    } else {
        match token_step(st, t.take(j)) {
            Err(e) => Err(e),
            Ok(st2) => {
                if 0 < j && j <= t.len() && i <= s.len() {
                    tokens_fold(t.skip(j), st2)
                } else {
                    Ok(st2)
                }
            },
        }
    }
}

/// Host time at which the sensor took a sample received at `received_at_us`:
/// the gap between the bridge's print time and the sensor's interrupt time is
/// taken back from the receive time (when both are known and the result is
/// not negative).
pub open spec fn spec_sampled_at(f: SampleFields, received_at_us: u64) -> u64 {
    match (f.printed_at_ms, f.sensor_timestamp_us) {
        (Some(ms), Some(irq)) => {
            let printed_us: int = if ms * 1000 > u64::MAX { u64::MAX as int } else { ms * 1000 };
            let age: int = if printed_us >= irq { printed_us - irq } else { 0 };
            if age <= received_at_us { (received_at_us - age) as u64 } else { received_at_us }
        },
        _ => received_at_us,
    }
}

/// The sample time is the receive time moved back by the bridge's latency:
/// the print time `t_ms`, converted from milliseconds to microseconds
/// (saturating at `u64::MAX`), less the sensor's interrupt time `irq_us`.
/// Without both times, or when that latency is negative or longer than the
/// receive time, the receive time stands; the sample time is never later
/// than the receive time.
pub proof fn lemma_sampled_at_subtracts_bridge_latency(f: SampleFields, received_at_us: u64)
    ensures
        spec_sampled_at(f, received_at_us) <= received_at_us,
        (f.printed_at_ms is None || f.sensor_timestamp_us is None)
            ==> spec_sampled_at(f, received_at_us) == received_at_us,
        f.printed_at_ms is Some && f.sensor_timestamp_us is Some ==> {
            let ms = f.printed_at_ms->Some_0;
            let irq = f.sensor_timestamp_us->Some_0;
            let printed_us: int = if ms * 1000 <= u64::MAX { ms * 1000 } else { u64::MAX as int };
            &&& (printed_us >= irq && printed_us - irq <= received_at_us)
                ==> spec_sampled_at(f, received_at_us) + (printed_us - irq) == received_at_us
            &&& (printed_us < irq || printed_us - irq > received_at_us)
                ==> spec_sampled_at(f, received_at_us) == received_at_us
        },
{
}

/// What a line of the sensor bridge means: `Ok(None)` for lines that are not
/// depth samples (status lines, or a sample whose nearest distance is not
/// positive), `Ok(Some(fields))` for a sample.
pub open spec fn spec_parse_sample(line: Seq<char>) -> Result<Option<SampleFields>, SampleParseError> {
    let t = spec_trim(line);
    if !(t.len() >= 4 && t.take(4) == seq!['t', 'o', 'f', ' ']) {
        Ok(None)
    } else {
        let rest = t.skip(4);
        if !(rest.len() >= 4 && rest.take(4) == seq!['s', 'e', 'q', '=']) {
            Ok(None)
        } else {
            match tokens_fold(rest, empty_fields()) {
                Err(e) => Err(e),
                Ok(f) => {
                    if f.min_mm matches Some(m) && m > 0 {
                        Ok(Some(f))
                    } else {
                        Ok(None)
                    }
                },
            }
        }
    }
}

fn parse_u64_value(s: &Vec<char>, start: usize, end: usize, field: SampleField) -> (r: Result<u64, SampleParseError>)
    requires start <= end <= s@.len(),
    ensures r == parse_u64_field(s@.subrange(start as int, end as int), field),
{
    match parse_unsigned(s, start, end, u64::MAX) {
        Some(v) => Ok(v),
        None => Err(SampleParseError::InvalidField(field)),
    }
}

fn parse_u32_value(s: &Vec<char>, start: usize, end: usize, field: SampleField) -> (r: Result<u32, SampleParseError>)
    requires start <= end <= s@.len(),
    ensures r == parse_u32_field(s@.subrange(start as int, end as int), field),
{
    match parse_unsigned(s, start, end, u32::MAX as u64) {
        Some(v) => Ok(v as u32),
        None => Err(SampleParseError::InvalidField(field)),
    }
}

/// Reads the comma-separated zone distances of `s[start..end]` into `zones`
/// from entry 0; gives how many were listed. On an error the distances read
/// before the failing part stay stored from entry 0, and the other entries
/// keep their values.
pub fn parse_zones(s: &Vec<char>, start: usize, end: usize, zones: &mut Vec<u16>) -> (r: Result<usize, SampleParseError>)
    requires
        start <= end <= s@.len(),
        old(zones)@.len() == MAX_ZONES,
    ensures
        final(zones)@.len() == MAX_ZONES,
        final(zones)@ == zones_written(s@.subrange(start as int, end as int), old(zones)@, 0),
        match zones_fold(s@.subrange(start as int, end as int), old(zones)@, 0) {
            Ok((z, c)) => r == Ok::<usize, SampleParseError>(c as usize) && final(zones)@ == z,
            Err(e) => r == Err::<usize, SampleParseError>(e),
        },
{
    let mut count: usize = 0;
    let mut pos = start;
    loop
        invariant
            start <= pos <= end <= s@.len(),
            zones@.len() == MAX_ZONES,
            count <= MAX_ZONES,
            zones_fold(s@.subrange(start as int, end as int), old(zones)@, 0)
                == zones_fold(s@.subrange(pos as int, end as int), zones@, count as nat),
            zones_written(s@.subrange(start as int, end as int), old(zones)@, 0)
                == zones_written(s@.subrange(pos as int, end as int), zones@, count as nat),
        decreases end - pos,
    {
        let ghost v = s@.subrange(pos as int, end as int);
        let k = find_in(s, pos, end, ',');
        assert(v.take(k - pos) =~= s@.subrange(pos as int, k as int));
        if count >= MAX_ZONES {
            return Err(SampleParseError::TooManyZones);
        }
        let z = match parse_unsigned(s, pos, k, u16::MAX as u64) {
            Some(z) => z as u16,
            None => {
                return Err(SampleParseError::InvalidField(SampleField::Zone));
            },
        };
        zones.set(count, z);
        count = count + 1;
        if k < end {
            assert(v.skip(k - pos + 1) =~= s@.subrange(k + 1, end as int));
            pos = k + 1;
        } else {
            return Ok(count);
        }
    }
}

/// Applies the field `key=value` (key `s[ks..ke]`, value `s[vs..ve]`) to `acc`.
#[verifier::rlimit(60)]
fn apply_field(acc: &mut DepthSample, s: &Vec<char>, ks: usize, ke: usize, vs: usize, ve: usize) -> (r: Result<(), SampleParseError>)
    requires
        ks <= ke <= s@.len(),
        vs <= ve <= s@.len(),
        old(acc).zones@.len() == MAX_ZONES,
    ensures
        final(acc).zones@.len() == MAX_ZONES,
        final(acc).sampled_at_us == old(acc).sampled_at_us,
        final(acc).received_at_us == old(acc).received_at_us,
        match field_step(old(acc).fields(), s@.subrange(ks as int, ke as int), s@.subrange(vs as int, ve as int)) {
            Ok(f) => r is Ok && final(acc).fields() == f,
            Err(e) => r == Err::<(), SampleParseError>(e),
        },
{
    if range_eq(s, ks, ke, &['s', 'e', 'q']) {
        match parse_u64_value(s, vs, ve, SampleField::Sequence) {
            Ok(v) => { acc.sequence = Some(v); return Ok(()); },
            Err(e) => { return Err(e); },
        }
    } else if range_eq(s, ks, ke, &['t', '_', 'm', 's']) {
        match parse_u64_value(s, vs, ve, SampleField::PrintedAtMs) {
            Ok(v) => { acc.printed_at_ms = Some(v); return Ok(()); },
            Err(e) => { return Err(e); },
        }
    } else if range_eq(s, ks, ke, &['i', 'r', 'q', '_', 'u', 's']) {
        match parse_u64_value(s, vs, ve, SampleField::SensorTimestampUs) {
            Ok(v) => { acc.sensor_timestamp_us = Some(v); return Ok(()); },
            Err(e) => { return Err(e); },
        }
    } else if range_eq(s, ks, ke, &['r', 'e', 's']) {
        match parse_u32_value(s, vs, ve, SampleField::Resolution) {
            Ok(v) => { acc.resolution = Some(v); return Ok(()); },
            Err(e) => { return Err(e); },
        }
    } else if range_eq(s, ks, ke, &['c', 'e', 'n', 't', 'e', 'r', '_', 'm', 'm']) {
        match parse_u32_value(s, vs, ve, SampleField::CenterMm) {
            Ok(v) => { acc.center_mm = Some(v); return Ok(()); },
            Err(e) => { return Err(e); },
        }
    } else if range_eq(s, ks, ke, &['m', 'i', 'n', '_', 'm', 'm']) {
        match parse_u32_value(s, vs, ve, SampleField::MinMm) {
            Ok(v) => { acc.min_mm = Some(v); return Ok(()); },
            Err(e) => { return Err(e); },
        }
    } else if range_eq(s, ks, ke, &['m', 'a', 'x', '_', 'm', 'm']) {
        match parse_u32_value(s, vs, ve, SampleField::MaxMm) {
            Ok(v) => { acc.max_mm = Some(v); return Ok(()); },
            Err(e) => { return Err(e); },
        }
    } else if range_eq(s, ks, ke, &['v', 'a', 'l', 'i', 'd']) {
        match parse_u32_value(s, vs, ve, SampleField::ValidZones) {
            Ok(v) => { acc.valid_zones = Some(v); return Ok(()); },
            Err(e) => { return Err(e); },
        }
    } else if range_eq(s, ks, ke, &['z', 'o', 'n', 'e', 's']) {
        proof {
            lemma_zones_fold_bounds(s@.subrange(vs as int, ve as int), acc.zones@, 0);
        }
        match parse_zones(s, vs, ve, &mut acc.zones) {
            Ok(count) => { acc.zone_count = count; return Ok(()); },
            Err(e) => { return Err(e); },
        }
    }
    Ok(())
}

/// Applies the token `s[start..end]` (free of whitespace) to `acc`.
fn apply_token(acc: &mut DepthSample, s: &Vec<char>, start: usize, end: usize) -> (r: Result<(), SampleParseError>)
    requires
        start <= end <= s@.len(),
        old(acc).zones@.len() == MAX_ZONES,
    ensures
        final(acc).zones@.len() == MAX_ZONES,
        final(acc).sampled_at_us == old(acc).sampled_at_us,
        final(acc).received_at_us == old(acc).received_at_us,
        match token_step(old(acc).fields(), s@.subrange(start as int, end as int)) {
            Ok(f) => r is Ok && final(acc).fields() == f,
            Err(e) => r == Err::<(), SampleParseError>(e),
        },
{
    let ghost tok = s@.subrange(start as int, end as int);
    let eq = find_in(s, start, end, '=');
    if eq == end {
        return Ok(());
    }
    assert(tok.take(eq - start) =~= s@.subrange(start as int, eq as int));
    assert(tok.skip(eq - start + 1) =~= s@.subrange(eq + 1, end as int));
    apply_field(acc, s, start, eq, eq + 1, end)
}

/// Applies the whitespace-separated tokens of `s[start..end]` to `acc`, in order.
#[verifier::rlimit(40)]
fn read_tokens(acc: &mut DepthSample, s: &Vec<char>, start: usize, end: usize) -> (r: Result<(), SampleParseError>)
    requires
        start <= end <= s@.len(),
        old(acc).zones@.len() == MAX_ZONES,
    ensures
        final(acc).zones@.len() == MAX_ZONES,
        final(acc).sampled_at_us == old(acc).sampled_at_us,
        final(acc).received_at_us == old(acc).received_at_us,
        match tokens_fold(s@.subrange(start as int, end as int), old(acc).fields()) {
            Ok(f) => r is Ok && final(acc).fields() == f,
            Err(e) => r == Err::<(), SampleParseError>(e),
        },
{
    let mut pos = start;
    while pos < end
        invariant
            start <= pos <= end <= s@.len(),
            acc.zones@.len() == MAX_ZONES,
            acc.sampled_at_us == old(acc).sampled_at_us,
            acc.received_at_us == old(acc).received_at_us,
            tokens_fold(s@.subrange(start as int, end as int), old(acc).fields())
                == tokens_fold(s@.subrange(pos as int, end as int), acc.fields()),
        decreases end - pos,
    {
        let ghost cur = s@.subrange(pos as int, end as int);
        let ghost f0 = acc.fields();
        let i = scan_run(s, pos, end, true);
        if i == end {
            assert(tokens_fold(cur, f0) == Ok::<SampleFields, SampleParseError>(f0));
            return Ok(());
        }
        let ghost tt = cur.skip(i - pos);
        assert(tt =~= s@.subrange(i as int, end as int));
        let j = scan_run(s, i, end, false);
        proof {
            lemma_run_len_bound(tt, false);
            assert(tt[0] == s@[i as int]);
            lemma_run_len_bound(cur, true);
            assert(cur[i - pos] == s@[i as int]);
            assert(tt.take(j - i) =~= s@.subrange(i as int, j as int));
            assert(tt.skip(j - i) =~= s@.subrange(j as int, end as int));
        }
        let ghost tok = s@.subrange(i as int, j as int);
        assert(tokens_fold(cur, f0) == match token_step(f0, tok) {
            Err(e) => Err(e),
            Ok(f2) => tokens_fold(s@.subrange(j as int, end as int), f2),
        });
        let step = apply_token(acc, s, i, j);
        match step {
            Err(e) => {
                return Err(e);
            },
            Ok(()) => {},
        }
        pos = j;
    }
    assert(tokens_fold(s@.subrange(pos as int, end as int), acc.fields()) == Ok::<SampleFields, SampleParseError>(acc.fields()));
    Ok(())
}

fn sampled_at(acc: &DepthSample, received_at_us: u64) -> (r: u64)
    ensures r == spec_sampled_at(acc.fields(), received_at_us),
{
    match (acc.printed_at_ms, acc.sensor_timestamp_us) {
        (Some(ms), Some(irq)) => {
            let printed_us: u64 = if ms <= u64::MAX / 1000 { ms * 1000 } else { u64::MAX };
            let age = printed_us.saturating_sub(irq);
            if age <= received_at_us { received_at_us - age } else { received_at_us }
        },
        _ => received_at_us,
    }
}

/// Parses one line of the sensor bridge's output, received at
/// `received_at_us`.
///
/// Sample lines read `tof seq=<n> key=value ...`; the keys `seq`, `t_ms`,
/// `irq_us`, `res`, `center_mm`, `min_mm`, `max_mm`, `valid` and `zones`
/// (comma-separated distances, at most 64) are read and others ignored. Other
/// lines, and samples whose `min_mm` is missing or zero, give `Ok(None)`.
#[verifier::rlimit(60)]
pub fn parse_sample(line: &str, received_at_us: u64) -> (r: Result<Option<DepthSample>, SampleParseError>)
    ensures
        match spec_parse_sample(line@) {
            Err(e) => r == Err::<Option<DepthSample>, SampleParseError>(e),
            Ok(None) => r matches Ok(None),
            Ok(Some(f)) => r matches Ok(Some(sample)) && sample.fields() == f
                && sample.sampled_at_us == spec_sampled_at(f, received_at_us)
                && sample.received_at_us == received_at_us,
        },
{
    let s = str_chars(line);
    let (lo, hi) = trim_range(&s, 0, s.len());
    assert(s@.subrange(0, s@.len() as int) =~= s@);
    let ghost t = s@.subrange(lo as int, hi as int);
    if !(hi - lo >= 4 && range_eq(&s, lo, lo + 4, &['t', 'o', 'f', ' '])) {
        proof {
            if t.len() >= 4 {
                assert(t.take(4) =~= s@.subrange(lo as int, lo + 4));
            }
        }
        return Ok(None);
    }
    assert(t.take(4) =~= s@.subrange(lo as int, lo + 4));
    let rs = lo + 4;
    let ghost rest = t.skip(4);
    assert(rest =~= s@.subrange(rs as int, hi as int));
    if !(hi - rs >= 4 && range_eq(&s, rs, rs + 4, &['s', 'e', 'q', '='])) {
        proof {
            if rest.len() >= 4 {
                assert(rest.take(4) =~= s@.subrange(rs as int, rs + 4));
            }
        }
        return Ok(None);
    }
    assert(rest.take(4) =~= s@.subrange(rs as int, rs + 4));

    let mut zones: Vec<u16> = Vec::new();
    let mut z: usize = 0;
    while z < MAX_ZONES
        invariant
            z <= MAX_ZONES,
            zones@.len() == z,
            forall|i: int| 0 <= i < z ==> zones@[i] == 0u16,
        decreases MAX_ZONES - z,
    {
        zones.push(0u16);
        z = z + 1;
    }
    let mut acc = DepthSample {
        sequence: None,
        sensor_timestamp_us: None,
        printed_at_ms: None,
        resolution: None,
        center_mm: None,
        min_mm: None,
        max_mm: None,
        valid_zones: None,
        zones,
        zone_count: 0,
        sampled_at_us: 0,
        received_at_us,
    };
    assert(acc.fields().zones =~= empty_fields().zones);
    assert(acc.fields() == empty_fields());

    let read = read_tokens(&mut acc, &s, rs, hi);
    match read {
        Err(e) => {
            return Err(e);
        },
        Ok(()) => {},
    }
    let has_depth = match acc.min_mm {
        Some(m) => m > 0,
        None => false,
    };
    if !has_depth {
        return Ok(None);
    }
    acc.sampled_at_us = sampled_at(&acc, received_at_us);
    Ok(Some(acc))
}


/// Distance in time between two instants, in microseconds.
pub open spec fn spec_instant_distance(a: u64, b: u64) -> u64 {
    if a >= b { (a - b) as u64 } else { (b - a) as u64 }
}

pub fn instant_distance(a: u64, b: u64) -> (d: u64)
    ensures d == spec_instant_distance(a, b),
{
    if a >= b { a - b } else { b - a }
}

/// The most recent samples, oldest first, at most `capacity` of them.
pub struct SampleBuffer {
    samples: Vec<DepthSample>,
    capacity: usize,
}

impl SampleBuffer {
    pub closed spec fn samples(&self) -> Seq<DepthSample> {
        self.samples@
    }

    pub closed spec fn capacity(&self) -> nat {
        self.capacity as nat
    }

    pub closed spec fn wf(&self) -> bool {
        1 <= self.capacity && self.samples@.len() <= self.capacity
    }

    /// An empty buffer that keeps `capacity` samples (at least one).
    pub fn new(capacity: usize) -> (b: SampleBuffer)
        ensures
            b.wf(),
            b.samples() == Seq::<DepthSample>::empty(),
            b.capacity() == if capacity >= 1 { capacity as nat } else { 1 },
    {
        SampleBuffer { samples: Vec::new(), capacity: if capacity >= 1 { capacity } else { 1 } }
    }

    pub fn len(&self) -> (n: usize)
        ensures n == self.samples().len(),
    {
        self.samples.len()
    }

    /// Appends `sample`, dropping the oldest sample first when the buffer is
    /// full.
    pub fn push(&mut self, sample: DepthSample)
        requires old(self).wf(),
        ensures
            final(self).wf(),
            final(self).capacity() == old(self).capacity(),
            final(self).samples() == (if old(self).samples().len() >= old(self).capacity() {
                old(self).samples().drop_first()
            } else {
                old(self).samples()
            }).push(sample),
    {
        if self.samples.len() >= self.capacity {
            self.samples.remove(0);
        }
        self.samples.push(sample);
    }

    /// The sample taken closest in time to `timestamp_us`; of several equally
    /// close, the oldest.
    pub fn closest(&self, timestamp_us: u64) -> (r: Option<&DepthSample>)
        ensures
            r is None <==> self.samples().len() == 0,
            r matches Some(s) ==> exists|i: int| #![trigger self.samples()[i]]
                0 <= i < self.samples().len() && *s == self.samples()[i]
                && (forall|j: int| 0 <= j < self.samples().len() ==>
                    spec_instant_distance(self.samples()[i].sampled_at_us, timestamp_us)
                        <= spec_instant_distance(#[trigger] self.samples()[j].sampled_at_us, timestamp_us))
                && (forall|j: int| 0 <= j < i ==>
                    spec_instant_distance(self.samples()[i].sampled_at_us, timestamp_us)
                        < spec_instant_distance(#[trigger] self.samples()[j].sampled_at_us, timestamp_us)),
    {
        if self.samples.len() == 0 {
            return None;
        }
        let mut best: usize = 0;
        let mut best_d = instant_distance(self.samples[0].sampled_at_us, timestamp_us);
        let mut k: usize = 1;
        while k < self.samples.len()
            invariant
                1 <= k <= self.samples@.len(),
                best < k,
                best_d == spec_instant_distance(self.samples@[best as int].sampled_at_us, timestamp_us),
                forall|j: int| 0 <= j < k ==> best_d <= spec_instant_distance(#[trigger] self.samples@[j].sampled_at_us, timestamp_us),
                forall|j: int| 0 <= j < best ==> best_d < spec_instant_distance(#[trigger] self.samples@[j].sampled_at_us, timestamp_us),
            decreases self.samples@.len() - k,
        {
            let d = instant_distance(self.samples[k].sampled_at_us, timestamp_us);
            if d < best_d {
                best = k;
                best_d = d;
            }
            k = k + 1;
        }
        let r = &self.samples[best];
        assert(*r == self.samples()[best as int]);
        Some(r)
    }
}

} // verus!
