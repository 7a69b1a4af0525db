use tron::tof::{parse_sample, parse_zones, SampleBuffer, SampleField, SampleParseError};

#[test]
fn parses_sample_line() {
    let received_at = 5_000_000_000u64;
    let sample = parse_sample(
        "tof seq=438 t_ms=34789 irq_us=34789000 res=64 center_mm=386 min_mm=26 max_mm=624 valid=26 zones=405,0,386\n",
        received_at,
    )
    .unwrap()
    .unwrap();

    assert_eq!(sample.sequence, Some(438));
    assert_eq!(sample.printed_at_ms, Some(34_789));
    assert_eq!(sample.sensor_timestamp_us, Some(34_789_000));
    assert_eq!(sample.resolution, Some(64));
    assert_eq!(sample.center_mm, Some(386));
    assert_eq!(sample.min_mm, Some(26));
    assert_eq!(sample.max_mm, Some(624));
    assert_eq!(sample.valid_zones, Some(26));
    assert_eq!(sample.zone_count, 3);
    assert_eq!(&sample.zones[..3], &[405, 0, 386]);
    assert_eq!(sample.zones[3], 0);
    assert!(sample.sampled_at_us <= sample.received_at_us);
}

#[test]
fn parses_full_zone_payload() {
    let received_at = 5_000_000_000u64;
    let sample = parse_sample(
        "tof seq=166836 t_ms=11004765 irq_us=2414782186 res=64 center_mm=1784 min_mm=736 max_mm=2796 valid=24 zones=0,0,1799,1843,1803,1780,1755,1766,0,0,2059,0,2085,2045,2002,1994,0,0,0,2288,0,0,2387,2284,0,0,0,2796,0,2556,2515,2376,0,0,0,0,0,0,0,0,0,0,0,0,0,0,798,0,0,0,0,0,0,862,745,783,0,0,0,0,0,768,736,0",
        received_at,
    )
    .unwrap()
    .unwrap();

    assert_eq!(sample.sequence, Some(166_836));
    assert_eq!(sample.printed_at_ms, Some(11_004_765));
    assert_eq!(sample.sensor_timestamp_us, Some(2_414_782_186));
    assert_eq!(sample.resolution, Some(64));
    assert_eq!(sample.center_mm, Some(1784));
    assert_eq!(sample.min_mm, Some(736));
    assert_eq!(sample.max_mm, Some(2796));
    assert_eq!(sample.valid_zones, Some(24));
    assert_eq!(sample.zone_count, 64);
    assert_eq!(sample.zones[2], 1799);
    assert_eq!(sample.zones[27], 2796);
    assert_eq!(sample.zones[62], 736);
}

#[test]
fn skips_status_and_empty_depth() {
    let received_at = 1_000u64;
    assert!(parse_sample("tof status=ready res=64 hz=15 int_pin=16", received_at)
        .unwrap()
        .is_none());
    assert!(parse_sample(
        "tof seq=1 t_ms=1 irq_us=2 res=64 center_mm=0 min_mm=0 max_mm=0 valid=0 zones=0",
        received_at,
    )
    .unwrap()
    .is_none());
}

#[test]
fn rejects_more_than_64_zones() {
    let zones = std::iter::repeat_n("1", 65).collect::<Vec<_>>().join(",");
    let line = format!(
        "tof seq=1 t_ms=1 irq_us=2 res=64 center_mm=1 min_mm=1 max_mm=1 valid=65 zones={zones}"
    );

    assert!(parse_sample(&line, 0).is_err());
    assert_eq!(parse_sample(&line, 0).unwrap_err(), SampleParseError::TooManyZones);
}

#[test]
fn sample_buffer_keeps_the_newest_and_finds_the_closest() {
    let mut buffer = SampleBuffer::new(2);
    for (i, line) in [
        "tof seq=1 min_mm=10 zones=1",
        "tof seq=2 min_mm=20 zones=2",
        "tof seq=3 min_mm=30 zones=3",
    ]
    .iter()
    .enumerate()
    {
        let sample = parse_sample(line, 1_000 * (i as u64 + 1)).unwrap().unwrap();
        buffer.push(sample);
    }
    assert_eq!(buffer.len(), 2);
    assert_eq!(buffer.closest(0).unwrap().sequence, Some(2));
    assert_eq!(buffer.closest(10_000).unwrap().sequence, Some(3));
}

#[test]
fn zones_read_before_a_bad_part_stay_stored() {
    let text: Vec<char> = "1,2,x,4".chars().collect();
    let mut zones = vec![9u16; 64];
    assert_eq!(
        parse_zones(&text, 0, text.len(), &mut zones),
        Err(SampleParseError::InvalidField(SampleField::Zone))
    );
    assert_eq!(&zones[..4], &[1, 2, 9, 9]);
    assert!(zones[4..].iter().all(|&z| z == 9));

    let many: Vec<char> = vec!["5"; 65].join(",").chars().collect();
    let mut zones = vec![0u16; 64];
    assert_eq!(parse_zones(&many, 0, many.len(), &mut zones), Err(SampleParseError::TooManyZones));
    assert!(zones.iter().all(|&z| z == 5));
}
