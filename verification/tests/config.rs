use quanergy_client::config::{
    device_model, flatten_xml, get_case_fallback, parse_optional_bool, parse_optional_u8, parse_optional_usize,
    EncoderChoice, PipelineSettings, SensorModel, XmlAttribute, XmlEvent, XmlFlattener, XmlValues,
};
use quanergy_client::error::QuanergyError;
use quanergy_client::protocol::ReturnSelection;

fn uppercase_ring_keys() {
    let xml = r#"
        <Settings>
          <RingFilter><Range0>2.5</Range0><Intensity0>7</Intensity0></RingFilter>
        </Settings>
        "#;
    let values = flatten_xml(xml).unwrap();
    let mut settings = PipelineSettings::default();
    settings.apply_settings_xml(&values).unwrap();
    assert_eq!(values.get("Settings.RingFilter.Range0").unwrap(), "2.5");
    assert_eq!(settings.ring_min_intensity[0], 7);
}

fn lowercase_ring_keys() {
    let xml = r#"
        <Settings>
          <RingFilter><range1>3.5</range1><intensity1>9</intensity1></RingFilter>
        </Settings>
        "#;
    let values = flatten_xml(xml).unwrap();
    let mut settings = PipelineSettings::default();
    settings.apply_settings_xml(&values).unwrap();
    assert_eq!(values.get("Settings.RingFilter.range1").unwrap(), "3.5");
    assert_eq!(settings.ring_min_intensity[1], 9);
}

#[test]
fn tests_settings_accepts_sample_uppercase_ring_filter_keys() {
    uppercase_ring_keys();
}

#[test]
fn config_settings_accepts_sample_uppercase_ring_filter_keys() {
    uppercase_ring_keys();
}

#[test]
fn tests_settings_accepts_cpp_lowercase_ring_filter_keys() {
    lowercase_ring_keys();
}

#[test]
fn config_settings_accepts_cpp_lowercase_ring_filter_keys() {
    lowercase_ring_keys();
}

#[test]
fn sensor_model_recognition() {
    assert_eq!(SensorModel::parse("MQ-8"), SensorModel::Mq8);
    assert_eq!(SensorModel::parse("M1 Edge"), SensorModel::M1);
    assert_eq!(SensorModel::parse("M8-Ultra"), SensorModel::M8);
    assert_eq!(SensorModel::parse("mystery"), SensorModel::M8);
    assert_eq!(SensorModel::parse("lidar"), SensorModel::Other("lidar".to_string()));
    assert_eq!(SensorModel::parse(""), SensorModel::Other(String::new()));
}

#[test]
fn optional_value_parsing() {
    assert_eq!(parse_optional_usize(" 42 "), Some(42));
    assert_eq!(parse_optional_usize("+7"), Some(7));
    assert_eq!(parse_optional_usize("  "), None);
    assert_eq!(parse_optional_usize("-1"), None);
    assert_eq!(parse_optional_usize("4x"), None);
    assert_eq!(parse_optional_u8("255"), Some(255));
    assert_eq!(parse_optional_u8("256"), None);
    assert_eq!(parse_optional_bool(" Yes "), Some(true));
    assert_eq!(parse_optional_bool("1"), Some(true));
    assert_eq!(parse_optional_bool("FALSE"), Some(false));
    assert_eq!(parse_optional_bool("no"), Some(false));
    assert_eq!(parse_optional_bool("maybe"), None);
    assert_eq!(parse_optional_bool(""), None);
}

#[test]
fn later_values_replace_earlier_ones() {
    let mut v = XmlValues::new();
    v.insert("a".to_string(), "1".to_string());
    v.insert("b".to_string(), "2".to_string());
    v.insert("a".to_string(), "3".to_string());
    assert_eq!(v.get("a").unwrap(), "3");
    assert_eq!(v.get("b").unwrap(), "2");
    assert!(v.get("c").is_none());
    assert_eq!(get_case_fallback(&v, "c", "b").unwrap(), "2");
    assert_eq!(get_case_fallback(&v, "a", "b").unwrap(), "3");
    assert!(get_case_fallback(&v, "x", "y").is_none());
}

#[test]
fn flattening_names_lasers_by_id() {
    let xml = r#"<DeviceInfo><model>M8</model><calibration><lasers>
        <laser id="3"><v>-0.1</v></laser></lasers></calibration></DeviceInfo>"#;
    let values = flatten_xml(xml).unwrap();
    assert_eq!(values.get("DeviceInfo.model").unwrap(), "M8");
    assert_eq!(values.get("DeviceInfo.calibration.lasers.laser#3.v").unwrap(), "-0.1");
    assert_eq!(device_model(&values).unwrap(), SensorModel::M8);
    let empty = flatten_xml("<DeviceInfo></DeviceInfo>").unwrap();
    assert!(matches!(device_model(&empty), Err(QuanergyError::Config(m)) if m == "deviceInfo missing DeviceInfo.model"));
}

#[test]
fn malformed_xml_is_an_xml_error() {
    assert!(matches!(flatten_xml("<a><b></a>"), Err(QuanergyError::Xml(_))));
}

#[test]
fn flattener_steps() {
    let mut f = XmlFlattener::new();
    assert!(f.step(XmlEvent::Start("Settings".to_string(), Vec::new())).unwrap());
    assert!(f.step(XmlEvent::Start("host".to_string(), Vec::new())).unwrap());
    assert!(f.step(XmlEvent::Text("  10.0.0.9 ".to_string())).unwrap());
    assert!(f.step(XmlEvent::End).unwrap());
    assert!(f.step(XmlEvent::Text("   ".to_string())).unwrap());
    assert!(f.step(XmlEvent::End).unwrap());
    assert!(f.step(XmlEvent::End).unwrap());
    assert!(f.step(XmlEvent::Other).unwrap());
    assert!(!f.step(XmlEvent::Eof).unwrap());
    let v = f.into_values();
    assert_eq!(v.get("Settings.host").unwrap(), "10.0.0.9");
}

#[test]
fn laser_id_that_cannot_be_read_is_an_error() {
    let mut f = XmlFlattener::new();
    let attrs = vec![None, Some(XmlAttribute { key: "id".to_string(), value: Err("bad value".to_string()) })];
    assert!(matches!(f.step(XmlEvent::Start("laser".to_string(), attrs)), Err(QuanergyError::Xml(m)) if m == "bad value"));
}

#[test]
fn settings_apply_text_and_integer_values() {
    let xml = r#"<Settings><host>10.1.1.1</host><frame>lidar</frame><return>all</return>
        <minCloudSize>10</minCloudSize><maxCloudSize>20</maxCloudSize>
        <EncoderCorrection><override>true</override></EncoderCorrection></Settings>"#;
    let values = flatten_xml(xml).unwrap();
    let mut s = PipelineSettings::default();
    assert_eq!(s.frame_id, "quanergy");
    assert_eq!(s.max_cloud_size, 1_000_000);
    let choice = s.apply_settings_xml(&values).unwrap();
    assert_eq!(choice, EncoderChoice::Manual);
    assert_eq!(s.host, "10.1.1.1");
    assert_eq!(s.frame_id, "lidar");
    assert_eq!(s.return_selection, ReturnSelection::All);
    assert!(s.return_selection_set);
    assert_eq!(s.min_cloud_size, 10);
    assert_eq!(s.max_cloud_size, 20);
}

#[test]
fn settings_calibration_wins_and_bad_return_is_refused() {
    let xml = "<Settings><EncoderCorrection><calibrate>yes</calibrate><override>1</override></EncoderCorrection></Settings>";
    let mut s = PipelineSettings::default();
    assert_eq!(s.apply_settings_xml(&flatten_xml(xml).unwrap()).unwrap(), EncoderChoice::Automatic);
    let mut s = PipelineSettings::default();
    assert_eq!(s.apply_settings_xml(&flatten_xml("<Settings/>").unwrap()).unwrap(), EncoderChoice::Unchanged);
    let xml = "<Settings><host>h</host><return>5</return><minCloudSize>3</minCloudSize></Settings>";
    let mut s = PipelineSettings::default();
    assert!(matches!(
        s.apply_settings_xml(&flatten_xml(xml).unwrap()),
        Err(QuanergyError::InvalidReturnSelection(v)) if v == "5"
    ));
    assert_eq!(s.host, "h");
    assert_eq!(s.min_cloud_size, 1);
}
