use etsdiff::etscomponent::{
    capped_sum, capture_filter, storage_paths, storage_total, ComponentError, EComponent, ETSComponent,
    OctetsComponent, SComponent, TComponent,
};
use etsdiff::decimal::parse_u64;
use etsdiff::service::Service;

#[test]
fn scomponent_min_iteration() {
    let sc = SComponent::new();

    assert_eq!(1, sc.min_iteration());
}

#[test]
fn scomponent_value() {
    fs_extra::dir::create_all("/tmp/etsdiff/test2", false).unwrap();
    fs_extra::file::write_all("/tmp/etsdiff/test1.size", "a").unwrap();
    fs_extra::file::write_all("/tmp/etsdiff/test2/1.size", "ab").unwrap();
    fs_extra::file::write_all("/tmp/etsdiff/test2/2.size", "abc").unwrap();
    fs_extra::file::write_all("/tmp/etsdiff/test3_1.size", "a").unwrap();
    fs_extra::file::write_all("/tmp/etsdiff/test3_2.size", "abc").unwrap();

    let mut services: Vec<Service> = Vec::new();

    let mut s = Service::new("Test 1");
    s.add_storage_path("/tmp/etsdiff/test1.size");
    services.push(s);

    s = Service::new("Test 2");
    s.add_storage_path("/tmp/etsdiff/test2/");
    services.push(s);

    s = Service::new("Test 3");
    s.add_storage_path("/tmp/etsdiff/test3_1.size");
    s.add_storage_path("/tmp/etsdiff/test3_2.size");
    services.push(s);

    assert_eq!(3, services.len());

    let sc = SComponent::new();
    assert_eq!(10, sc.to_octets(&services));
    assert_eq!(10.0, sc.to_octets(&services) as f64);

    fs_extra::dir::remove("/tmp/etsdiff").unwrap();
}

#[test]
fn storage_is_read_afresh_at_each_call() {
    let dir = "/tmp/etsdiff_fresh";
    fs_extra::dir::create_all(dir, true).unwrap();
    fs_extra::file::write_all("/tmp/etsdiff_fresh/a", "x").unwrap();
    fs_extra::file::write_all("/tmp/etsdiff_fresh/b", "xy").unwrap();
    fs_extra::file::write_all("/tmp/etsdiff_fresh/c", "xyz").unwrap();

    let mut s1 = Service::new("S1");
    s1.add_storage_path("/tmp/etsdiff_fresh/a");
    s1.add_storage_path("/tmp/etsdiff_fresh/b");
    let mut s2 = Service::new("S2");
    s2.add_storage_path("/tmp/etsdiff_fresh/c");
    let services = vec![s1, s2];

    let sc = SComponent::new();
    assert_eq!(6, sc.to_octets(&services));

    fs_extra::file::remove("/tmp/etsdiff_fresh/c").unwrap();
    fs_extra::file::write_all("/tmp/etsdiff_fresh/c", "xyzuvw").unwrap();
    assert_eq!(9, sc.to_octets(&services));

    fs_extra::file::remove("/tmp/etsdiff_fresh/b").unwrap();
    assert_eq!(7, sc.to_octets(&services));

    fs_extra::dir::remove(dir).unwrap();
}

#[test]
fn storage_total_skips_unreadable_and_saturates() {
    assert_eq!(0, storage_total(&vec![]));
    assert_eq!(6, storage_total(&vec![Some(1), None, Some(2), Some(3)]));
    assert_eq!(u64::MAX, storage_total(&vec![Some(u64::MAX - 1), Some(5)]));
}

#[test]
fn capped_sum_saturates() {
    assert_eq!(15, capped_sum(&vec![1, 2, 3, 4, 5]));
    assert_eq!(u64::MAX, capped_sum(&vec![u64::MAX, 1]));
}

#[test]
fn capture_filter_lists_every_port() {
    let mut s1 = Service::new("S1");
    s1.add_port(8881);
    s1.add_port(8882);
    let s2 = Service::new("S2");
    let mut s3 = Service::new("S3");
    s3.add_port(0);
    s3.add_port(4294967295);
    let f = capture_filter(&vec![s1, s2, s3]);
    assert_eq!(
        f,
        "host 127.0.0.1 and (port 8881 or port 8882 or port 0 or port 4294967295)"
    );
}

#[test]
fn capture_filter_without_ports() {
    assert_eq!(capture_filter(&vec![Service::new("S")]), "host 127.0.0.1 and ()");
    assert_eq!(capture_filter(&vec![]), "host 127.0.0.1 and ()");
}

#[test]
fn tcomponent_counts_frames() {
    let mut s = Service::new("S");
    s.add_port(80);
    let services = vec![s];
    let mut tc = TComponent::new();
    assert_eq!(1, tc.min_iteration());
    tc.before_campaign();
    let f = tc.before_test(&services).unwrap();
    assert_eq!(f, "host 127.0.0.1 and (port 80)");
    assert!(tc.add_frame_len("60").is_ok());
    assert!(tc.add_frame_len("1514").is_ok());
    assert!(tc.add_frame_len("garbage").is_ok());
    assert!(tc.add_frame_len("+6").is_ok());
    assert!(tc.after_test().is_ok());
    assert_eq!(1580, tc.to_octets());
    assert!(tc.before_test(&services).is_ok());
    assert_eq!(0, tc.to_octets());
    assert!(tc.add_frame_len("18446744073709551615").is_ok());
    assert!(tc.add_frame_len("1").is_ok());
    assert!(tc.after_test().is_ok());
    assert_eq!(u64::MAX, tc.to_octets());
}

#[test]
fn tcomponent_refuses_calls_out_of_its_stage() {
    let services = vec![Service::new("S")];
    let mut tc = TComponent::new();
    assert!(tc.before_test(&services) == Err(ComponentError::NotPrepared));
    assert!(tc.add_frame_len("10") == Err(ComponentError::NotArmed));
    assert!(tc.after_test() == Err(ComponentError::NotArmed));
    tc.before_campaign();
    assert!(tc.add_frame_len("10") == Err(ComponentError::NotArmed));
    assert!(tc.before_test(&services).is_ok());
    assert!(tc.before_test(&services) == Err(ComponentError::NotPrepared));
    assert!(tc.add_frame_len("10").is_ok());
    assert!(tc.after_test().is_ok());
    assert!(tc.add_frame_len("10") == Err(ComponentError::NotArmed));
    assert_eq!(10, tc.to_octets());
    tc.after_campaign();
    assert!(tc.before_test(&services) == Err(ComponentError::NotPrepared));
    assert_eq!(10, tc.to_octets());
}

#[test]
fn parse_u64_follows_from_str() {
    for text in ["0", "7", "+7", "0042", "18446744073709551615", "", "+", "-1", "1a", " 1", "18446744073709551616", "99999999999999999999"] {
        assert_eq!(text.parse::<u64>().ok(), parse_u64(text), "{}", text);
    }
}

#[test]
fn ecomponent_measures_deltas() {
    let mut ec = EComponent::new();
    assert_eq!(1, ec.min_iteration());
    ec.before_campaign(false);
    assert!(ec.before_test(vec![1_000, 5_000]).is_ok());
    assert_eq!(0, ec.value());
    assert!(ec.after_test(&vec![1_500, 7_250]).is_ok());
    assert_eq!(2_750, ec.value());
    assert!(ec.after_campaign());
}

#[test]
fn ecomponent_counter_that_goes_back_counts_nothing() {
    let mut ec = EComponent::new();
    ec.before_campaign(true);
    assert!(ec.before_test(vec![10, 20]).is_ok());
    assert!(ec.after_test(&vec![5, 25]).is_ok());
    assert_eq!(5, ec.value());
}

#[test]
fn ecomponent_keeps_running_service() {
    let mut ec = EComponent::new();
    ec.before_campaign(true);
    assert!(!ec.after_campaign());
}

#[test]
fn ecomponent_rejects_out_of_order_readings() {
    let mut ec = EComponent::new();
    assert!(ec.before_test(vec![1]) == Err(ComponentError::NotPrepared));
    assert!(ec.after_test(&vec![1]) == Err(ComponentError::NotArmed));
    ec.before_campaign(true);
    assert!(ec.after_test(&vec![1]) == Err(ComponentError::NotArmed));
    assert!(ec.before_test(vec![1, 2]).is_ok());
    assert!(ec.before_test(vec![100, 200]) == Err(ComponentError::NotPrepared));
    assert!(ec.after_test(&vec![1]) == Err(ComponentError::ReadingsMismatch));
    assert!(ec.after_test(&vec![3, 4]).is_ok());
    assert_eq!(4, ec.value());
    assert!(ec.after_test(&vec![3, 4]) == Err(ComponentError::NotArmed));
    assert!(ec.before_test(vec![3, 4]).is_ok());
    assert!(ec.after_test(&vec![5, 4]).is_ok());
    assert_eq!(2, ec.value());
    ec.after_campaign();
    assert!(ec.before_test(vec![5, 4]) == Err(ComponentError::NotPrepared));
    assert_eq!(2, ec.value());
}

#[test]
fn storage_paths_in_service_order() {
    let mut s1 = Service::new("S1");
    s1.add_storage_path("/a");
    s1.add_storage_path("/b");
    let s2 = Service::new("S2");
    let mut s3 = Service::new("S3");
    s3.add_storage_path("/c");
    assert_eq!(storage_paths(&vec![s1, s2, s3]), ["/a", "/b", "/c"]);
    assert!(storage_paths(&vec![]).is_empty());
}

#[test]
fn storage_of_a_path_added_later_is_counted_next_time() {
    let dir = "/tmp/etsdiff_added";
    fs_extra::dir::create_all(dir, true).unwrap();
    fs_extra::file::write_all("/tmp/etsdiff_added/a", "xy").unwrap();
    fs_extra::file::write_all("/tmp/etsdiff_added/b", "xyzw").unwrap();
    let mut s1 = Service::new("S1");
    s1.add_storage_path("/tmp/etsdiff_added/a");
    let mut services = vec![s1];
    let sc = SComponent::new();
    let v1 = sc.to_octets(&services);
    assert_eq!(2, v1);
    services[0].add_storage_path("/tmp/etsdiff_added/b");
    assert_eq!(2, v1);
    assert_eq!(6, sc.to_octets(&services));
    fs_extra::dir::remove(dir).unwrap();
}

#[test]
fn energy_reading_text() {
    assert_eq!(Some(12_345_678), EComponent::parse_reading("12.345678\n"));
    assert_eq!(Some(12_500_000), EComponent::parse_reading("12.5\n"));
    assert_eq!(Some(3_000_000), EComponent::parse_reading("3"));
    assert_eq!(Some(3_000_000), EComponent::parse_reading("3.\n"));
    assert_eq!(Some(1_234_567), EComponent::parse_reading("1.2345678912"));
    assert_eq!(Some(7), EComponent::parse_reading("0.000007\n"));
    assert_eq!(None, EComponent::parse_reading(""));
    assert_eq!(None, EComponent::parse_reading(".5"));
    assert_eq!(None, EComponent::parse_reading("1.2.3"));
    assert_eq!(None, EComponent::parse_reading("1.x"));
    assert_eq!(None, EComponent::parse_reading("abc\n"));
    assert_eq!(None, EComponent::parse_reading("18446744073709.551616"));
    assert_eq!(Some(18_446_744_073_709_551_615), EComponent::parse_reading("18446744073709.551615"));
}
