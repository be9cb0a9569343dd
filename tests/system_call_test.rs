use etsdiff::test::{SystemCallTest, Test};

#[test]
fn system_call_test_creation_with_command_line() {
    let sct = SystemCallTest::new("TestName", "ls");
    assert_eq!(sct.name(), "TestName");
    assert!(sct.services_names().is_empty());
    assert_eq!(sct.system_call().path(), "ls");
}

#[test]
fn system_call_test_add_service_name() {
    let mut sct = SystemCallTest::new("TestName", "ls");
    assert!(sct.services_names().is_empty());
    sct.add_service_name("sn1");
    assert_eq!(sct.services_names().len(), 1);
    sct.add_service_name("sn2");
    assert_eq!(sct.services_names().len(), 2);
    let mut i = 0;
    for sn in sct.services_names().iter() {
        match i {
            0 => assert_eq!(sn, "sn1"),
            1 => assert_eq!(sn, "sn2"),
            _ => panic!("Uncovered service name"),
        }
        i += 1;
    }
}

#[test]
fn system_call_test_keeps_its_command() {
    let sct = SystemCallTest::new("T", "sleep 5");
    assert_eq!(sct.system_call().path(), "sleep");
    assert_eq!(sct.system_call().arguments(), ["5"]);
}
