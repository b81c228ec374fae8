use futuresdr::Error;
use futuresdr::capabilities::Capabilities;
use futuresdr::capabilities::Range;
use futuresdr::capabilities::RangeItem;
use futuresdr::capabilities::capabilities_to_pmt;
use futuresdr::capabilities::capabilities_from_pmt;
use futuresdr::capabilities::range_to_pmt;
use futuresdr::pmt::Pmt;

fn demo_caps() -> Capabilities {
    Capabilities::from_queries(
        Some(Range {
            items: vec![RangeItem::Interval(70.0f64.to_bits(), 6000.0f64.to_bits())],
        }),
        Some(Range { items: vec![RangeItem::Value(1000000.0f64.to_bits())] }),
        None,
        Some(vec![String::from("TX/RX"), String::from("RX2")]),
        Some(Range {
            items: vec![RangeItem::Step(
                0.0f64.to_bits(),
                76.0f64.to_bits(),
                1.0f64.to_bits(),
            )],
        }),
        Some(true),
    )
}

#[test]
fn capabilities_round_trip_through_pmt() {
    let c = demo_caps();
    let p = capabilities_to_pmt(&c);
    let back = capabilities_from_pmt(&p).unwrap();
    assert_eq!(
        back.frequency_range.as_ref().map(|r| r.items.clone()),
        c.frequency_range.as_ref().map(|r| r.items.clone())
    );
    assert_eq!(
        back.sample_rate_range.as_ref().map(|r| r.items.clone()),
        c.sample_rate_range.as_ref().map(|r| r.items.clone())
    );
    assert!(back.bandwidth_range.is_none());
    assert_eq!(back.antennas, c.antennas);
    assert_eq!(
        back.gain_range.as_ref().map(|r| r.items.clone()),
        c.gain_range.as_ref().map(|r| r.items.clone())
    );
    assert_eq!(back.supports_agc, Some(true));
}

#[test]
fn capabilities_pmt_shape() {
    let c = demo_caps();
    let p = capabilities_to_pmt(&c);
    assert!(matches!(p.map_get("frequency_range"), Some(Pmt::VecPmt(_))));
    assert!(p.map_get("bandwidth_range").is_none());
    assert_eq!(p.map_get("supports_agc"), Some(&Pmt::Bool(true)));
}

#[test]
fn non_map_pmt_is_rejected() {
    assert_eq!(
        capabilities_from_pmt(&Pmt::U32(3)),
        Err(Error::PmtValueError)
    );
}

#[test]
fn range_items_convert_by_shape() {
    let r = Range {
        items: vec![
            RangeItem::Value(5.0f64.to_bits()),
            RangeItem::Interval(1.0f64.to_bits(), 2.0f64.to_bits()),
        ],
    };
    match range_to_pmt(&r) {
        Pmt::VecPmt(items) => {
            assert_eq!(items.len(), 2);
            assert_eq!(items[0], Pmt::F64(5.0f64.to_bits()));
            match &items[1] {
                Pmt::MapStrPmt(es) => {
                    assert_eq!(es.len(), 2);
                    assert_eq!(es[0].0, "min");
                    assert_eq!(es[1].0, "max");
                },
                other => panic!("unexpected shape: {other:?}"),
            }
        },
        other => panic!("unexpected shape: {other:?}"),
    }
}

#[test]
fn empty_capabilities_make_an_empty_map() {
    let c = Capabilities::from_queries(None, None, None, None, None, None);
    match capabilities_to_pmt(&c) {
        Pmt::MapStrPmt(es) => assert!(es.is_empty()),
        other => panic!("unexpected shape: {other:?}"),
    }
    let back = capabilities_from_pmt(&capabilities_to_pmt(&c)).unwrap();
    assert!(back.frequency_range.is_none());
    assert!(back.supports_agc.is_none());
}
