use g2r::codetables::Codetable;
use g2r::grid::LatLonGridDefinition;
use g2r::product::{FixedSurface, HorizontalLayerProductDefinition};
use g2r::{DecodedField, Grib2, Grib2Error, Grib2Field, Grib2Info, Grib2Message, RefTime};

#[test]
fn grib2_new() {
    let g2 = Grib2::new(String::from("test_path"));

    assert_eq!(g2.path().as_str(), "test_path");
}

#[test]
fn grid_definition_lengths() {
    let base: Vec<i64> = (0..19).collect();
    let g = LatLonGridDefinition::new(&base).unwrap();
    assert!(g.list_point_counts.is_empty());
    assert_eq!(g.scanning_mode, 18);
    assert_eq!(g.first_gridpoint_latitude, 11);
    let long: Vec<i64> = (0..25).collect();
    let g = LatLonGridDefinition::new(&long).unwrap();
    assert_eq!(g.list_point_counts, vec![19, 20, 21, 22, 23, 24]);
    let short: Vec<i64> = (0..10).collect();
    assert!(LatLonGridDefinition::new(&short).is_none());
}

#[test]
fn grid_definition_spans_and_truncation() {
    let mut t: Vec<i64> = vec![0; 19];
    t[0] = 262;
    t[11] = -90_000_000;
    t[14] = 90_000_000;
    t[12] = 0;
    t[15] = 359_750_000;
    let g = LatLonGridDefinition::new(&t).unwrap();
    assert_eq!(g.earth_shape, 6);
    assert_eq!(g.lat_span(), (-90_000_000, 90_000_000));
    assert_eq!(g.lon_span(), (0, 359_750_000));
}

fn meaning_table(rows: &[(&str, &str)]) -> Codetable {
    let mut recs = vec![vec![String::from("CodeFlag"), String::from("MeaningParameterDescription_en")]];
    for (c, m) in rows {
        recs.push(vec![c.to_string(), m.to_string()]);
    }
    Codetable::from_records(String::from("m.csv"), recs).unwrap()
}

#[test]
fn earth_shape_meaning() {
    let t = meaning_table(&[("0", "Spherical"), ("6", "Spherical 6371229 m"), ("10-191", "Reserved")]);
    let mut v: Vec<i64> = vec![0; 19];
    v[0] = 6;
    let g = LatLonGridDefinition::new(&v).unwrap();
    assert_eq!(g.earth_shape(&t).unwrap(), "Spherical 6371229 m");
    v[0] = 7;
    assert!(LatLonGridDefinition::new(&v).unwrap().earth_shape(&t).is_none());
}

#[test]
fn fixed_surface_builders() {
    let s = FixedSurface::new(100).with_factor(2).with_value(85000);
    assert_eq!(s, FixedSurface { sfc_type: 100, sfc_scale_factor: 2, sfc_scale_value: 85000 });
    assert_eq!(FixedSurface::new(1), FixedSurface { sfc_type: 1, sfc_scale_factor: 0, sfc_scale_value: 0 });
    assert_ne!(s, s.with_value(85001));
    let t = meaning_table(&[("1", "Ground or water surface"), ("100", "Isobaric surface")]);
    assert_eq!(s.sfc_type(&t).unwrap(), "Isobaric surface");
    assert!(FixedSurface::new(2).sfc_type(&t).is_none());
}

fn product_values(first: (i64, i64, i64), second: (i64, i64, i64)) -> Vec<i64> {
    vec![2, 3, 4, 0, 96, 6, 0, 1, 6, first.0, first.1, first.2, second.0, second.1, second.2]
}

#[test]
fn product_definition_fields() {
    let v = product_values((103, 0, 2), (255, 0, 0));
    let d = HorizontalLayerProductDefinition::new(&v).unwrap();
    assert_eq!(d.parameter_category, 2);
    assert_eq!(d.parameter_number, 3);
    assert_eq!(d.generating_process, 4);
    assert_eq!(d.forecast_time, 6);
    let (a, b) = d.get_fixed_surfaces();
    assert_eq!(a, FixedSurface { sfc_type: 103, sfc_scale_factor: 0, sfc_scale_value: 2 });
    assert_eq!(b, FixedSurface { sfc_type: 255, sfc_scale_factor: 0, sfc_scale_value: 0 });
    assert!(HorizontalLayerProductDefinition::new(&v[..14].to_vec()).is_none());
    let mut wide = v.clone();
    wide[0] = 258;
    assert_eq!(HorizontalLayerProductDefinition::new(&wide).unwrap().parameter_category, 2);
}

#[test]
fn product_definition_lookups() {
    let v = product_values((1, 0, 0), (255, 0, 0));
    let d = HorizontalLayerProductDefinition::new(&v).unwrap();
    let params = Codetable::from_records(
        String::from("p.csv"),
        vec![
            vec!["SubTitle_en".into(), "CodeFlag".into(), "MeaningParameterDescription_en".into(), "UnitComments_en".into()],
            vec![
                "Product discipline 0 - Meteorological products, parameter category 2: Momentum".into(),
                "3".into(),
                "v-component of wind".into(),
                "m s-1".into(),
            ],
        ],
    )
    .unwrap();
    let (m, u) = d.parameter_info(&params, 0).unwrap();
    assert_eq!(m, "v-component of wind");
    assert_eq!(u, "m s-1");
    assert!(d.parameter_info(&params, 1).is_none());
    let procs = Codetable::from_records(
        String::from("g.csv"),
        vec![vec!["CodeFlag".into(), "Meaning".into()], vec!["4".into(), "Ensemble forecast".into()]],
    )
    .unwrap();
    assert_eq!(d.gen_process_type(&procs).unwrap(), "Ensemble forecast");
}

fn field(prod_template: Vec<i64>) -> Grib2Field {
    Grib2Field::new(DecodedField {
        field_number: 1,
        local: None,
        grid_definition_source: 0,
        grid_template_number: 0,
        grid_template: vec![0; 19],
        num_coords: 0,
        count_gridpoints: 4,
        count_optional_octets: 0,
        interpretation_of_optional_gridpoints: 0,
        optional_point_counts: Vec::new(),
        prod_template_number: 0,
        prod_template,
        data_representation_template_number: 0,
        data_representation_template: vec![1, 2],
        bitmap_indicator: 255,
        unpacked: 1,
        expanded: 1,
        gridpoint_bits: vec![1.5f32.to_bits(), 2.0f32.to_bits()],
    })
}

fn message(fields: Vec<Grib2Field>) -> Grib2Message {
    Grib2Message::new(Err(Grib2Error::Unknown), fields, Vec::new())
}

#[test]
fn field_from_decoder_values() {
    let f = field(product_values((1, 0, 0), (255, 0, 0)));
    assert!(f.grid_data_is_ct31());
    assert!(f.is_unpacked());
    assert!(f.is_expanded());
    assert!(f.bitmap().is_none());
    assert!(f.get_grid_arrays_list().is_none());
    assert_eq!(f.prod_template_len, 15);
    assert_eq!(f.num_datapoints, 2);
    assert_eq!(f32::from_bits(f.data_bits()[0]), 1.5);
    assert!(!f.empty());
    assert_eq!(f.data_representation_template_values(), &vec![1, 2]);
    assert!(f.grid_template_as_geograph_coordinate_grid_definition().is_some());
    assert!(field(vec![1, 2]).prod_template_as_horizontal_layer_definition().is_none());
}

#[test]
fn group_by_shared_and_distinct_layers() {
    let layer_a = product_values((100, 0, 50000), (255, 0, 0));
    let layer_b = product_values((100, 0, 50001), (255, 0, 0));
    let mut g2 = Grib2::new(String::from("x"));
    let msgs = vec![
        message(vec![field(layer_a.clone())]),
        message(vec![field(layer_a.clone()), field(layer_b.clone())]),
        message(vec![field(vec![1, 2, 3])]),
        message(vec![field(layer_b.clone())]),
    ];
    assert_eq!(g2.store_read(msgs, vec![(2, Grib2Error::InfoReadError(1))]), 4);
    let groups = g2.layer_groups();
    assert_eq!(groups.len(), 2);
    let a = (FixedSurface { sfc_type: 100, sfc_scale_factor: 0, sfc_scale_value: 50000 }, FixedSurface::new(255));
    let b = (FixedSurface { sfc_type: 100, sfc_scale_factor: 0, sfc_scale_value: 50001 }, FixedSurface::new(255));
    assert_eq!(groups[0], (a, vec![0, 1]));
    assert_eq!(groups[1], (b, vec![1, 3]));
    let by_layer = g2.messages_by_layer();
    assert_eq!(by_layer.len(), 2);
    assert_eq!(by_layer[0].0, a);
    assert_eq!(by_layer[0].1.len(), 2);
    assert_eq!(by_layer[1].1[1].fields().len(), 1);
    assert_eq!(g2.errors().len(), 1);
    assert!(!g2.empty());
}

#[test]
fn group_of_same_message_twice() {
    let layer = product_values((1, 0, 0), (1, 0, 0));
    let mut g2 = Grib2::new(String::from("y"));
    g2.store_read(vec![message(vec![field(layer.clone()), field(layer)])], Vec::new());
    let groups = g2.layer_groups();
    assert_eq!(groups.len(), 1);
    assert_eq!(groups[0].1, vec![0, 0]);
    assert!(Grib2::new(String::from("z")).layer_groups().is_empty());
}

#[test]
fn info_from_sections() {
    let sec0 = vec![0, 2, 1000];
    let sec1 = vec![7, 0, 2, 1, 1, 2024, 2, 29, 12, 30, 0, 0, 1];
    let info = Grib2Info::new(&sec0, &sec1).unwrap();
    assert_eq!(info.center, 7);
    assert_eq!(info.grib_edition, 2);
    assert_eq!(info.length, 1000);
    assert_eq!(info.ref_time, RefTime { year: 2024, month: 2, day: 29, hour: 12, minute: 30, second: 0 });
    let not_leap = vec![7, 0, 2, 1, 1, 2023, 2, 29, 12, 30, 0, 0, 1];
    assert!(Grib2Info::new(&sec0, &not_leap).is_none());
    assert!(Grib2Info::new(&sec0, &sec1[..12].to_vec()).is_none());
    assert!(Grib2Info::new(&sec0[..2].to_vec(), &sec1).is_none());
}

#[test]
fn ref_time_validation() {
    assert!(RefTime::new(2000, 2, 29, 0, 0, 0).is_some());
    assert!(RefTime::new(1900, 2, 29, 0, 0, 0).is_none());
    assert!(RefTime::new(2021, 4, 31, 0, 0, 0).is_none());
    assert!(RefTime::new(2021, 13, 1, 0, 0, 0).is_none());
    assert!(RefTime::new(2021, 12, 31, 24, 0, 0).is_none());
    assert!(RefTime::new(2021, 12, 31, 23, 59, 59).is_some());
    assert!(RefTime::new(300000, 1, 1, 0, 0, 0).is_none());
}

#[test]
fn error_texts() {
    assert_eq!(Grib2Error::InfoReadError(1).to_string(), "Beginning chars \"GRIB\" not found");
    assert_eq!(Grib2Error::FieldReadError(9).to_string(), "Data Representation Template 5.NN not yet implemented.");
    assert_eq!(Grib2Error::FieldReadError(16).to_string(), "Error unpacking Section 2");
    assert_eq!(Grib2Error::FieldReadError(5).to_string(), "unknown");
    assert_eq!(Grib2Error::Unknown.to_string(), "unknown");
    assert_eq!(Grib2::new(String::new()).write_all(), Err(Grib2Error::FunctionNotImplemented));
}

#[test]
fn message_accessors() {
    let info = Grib2Info::new(&vec![0, 2, 10], &vec![7, 0, 2, 1, 1, 2020, 1, 1, 0, 0, 0, 0, 1]).unwrap();
    let m = Grib2Message::new(Ok(info), vec![field(vec![])], vec![(1, Grib2Error::FieldReadError(6))]);
    assert_eq!(m.info().unwrap().discipline, 0);
    assert_eq!(m.fields().len(), 1);
    assert_eq!(m.errors()[0], (1, Grib2Error::FieldReadError(6)));
}

#[test]
fn message_from_decoder_report() {
    let sec0 = vec![0, 2, 500];
    let sec1 = vec![7, 0, 2, 1, 1, 2024, 5, 1, 6, 0, 0, 0, 1];
    let fields = vec![Ok(raw_field()), Err(6), Ok(raw_field()), Err(300)];
    let m = Grib2Message::from_decoded(Ok((sec0, sec1)), fields);
    assert_eq!(m.info().unwrap().ref_time.month, 5);
    assert_eq!(m.fields().len(), 2);
    assert_eq!(m.errors(), &vec![(1, Grib2Error::FieldReadError(6)), (3, Grib2Error::FieldReadError(44))]);
    let failed = Grib2Message::from_decoded(Err(2), Vec::new());
    assert_eq!(failed.info().unwrap_err(), &Grib2Error::InfoReadError(2));
    let bad_date = Grib2Message::from_decoded(Ok((vec![0, 2, 1], vec![7, 0, 2, 1, 1, 2024, 2, 30, 0, 0, 0, 0, 1])), Vec::new());
    assert_eq!(bad_date.info().unwrap_err(), &Grib2Error::Unknown);
}

fn raw_field() -> DecodedField {
    DecodedField {
        field_number: 1,
        local: Some(String::from("local")),
        grid_definition_source: 1,
        grid_template_number: 0,
        grid_template: vec![0; 21],
        num_coords: 0,
        count_gridpoints: 2,
        count_optional_octets: 1,
        interpretation_of_optional_gridpoints: 1,
        optional_point_counts: vec![3, 4],
        prod_template_number: 0,
        prod_template: vec![0; 15],
        data_representation_template_number: 0,
        data_representation_template: Vec::new(),
        bitmap_indicator: 0,
        unpacked: 0,
        expanded: 0,
        gridpoint_bits: Vec::new(),
    }
}

#[test]
fn field_optional_lists() {
    let f = Grib2Field::new(raw_field());
    assert!(!f.grid_data_is_ct31());
    assert_eq!(f.get_grid_arrays_list().unwrap(), &vec![3, 4]);
    assert_eq!(f.local().unwrap(), "local");
    assert!(f.empty());
    assert!(!f.is_unpacked());
    let g = f.grid_template_as_geograph_coordinate_grid_definition().unwrap();
    assert_eq!(g.list_point_counts, vec![0, 0]);
}

#[test]
fn grouped_messages_are_the_right_copies() {
    let layer_a = product_values((100, 0, 50000), (255, 0, 0));
    let layer_b = product_values((100, 0, 50001), (255, 0, 0));
    let mut first = field(layer_a.clone());
    first.field_number = 11;
    let mut second = field(layer_b.clone());
    second.field_number = 22;
    let mut g2 = Grib2::new(String::from("x"));
    g2.store_read(
        vec![message(vec![first, field(vec![1])]), message(vec![second])],
        Vec::new(),
    );
    let by_layer = g2.messages_by_layer();
    assert_eq!(by_layer.len(), 2);
    assert_eq!(by_layer[0].1.len(), 1);
    assert_eq!(by_layer[0].1[0].fields()[0].field_number, 11);
    assert_eq!(by_layer[0].1[0].fields().len(), 2);
    assert_eq!(by_layer[1].1[0].fields()[0].field_number, 22);
}

#[test]
fn copies_keep_every_value() {
    let f = Grib2Field::new(raw_field());
    let c = f.clone();
    assert_eq!(c.local().unwrap(), "local");
    assert_eq!(c.get_grid_arrays_list().unwrap(), &vec![3, 4]);
    assert_eq!(c.grid_template(), f.grid_template());
    let m = Grib2Message::new(Err(Grib2Error::InfoReadError(3)), vec![f], vec![(2, Grib2Error::FieldReadError(7))]);
    let d = m.clone();
    assert_eq!(d.info().unwrap_err(), &Grib2Error::InfoReadError(3));
    assert_eq!(d.errors(), m.errors());
    assert_eq!(d.fields()[0].field_number, 1);
}
