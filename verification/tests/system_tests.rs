use fos_microkernel::system::MobileSystem;

#[test]
fn a_fresh_system_reports_its_initial_state() {
    let s = MobileSystem::new();
    assert_eq!(s.battery_level, 85);
    assert_eq!(s.apps_running, 0);
}
