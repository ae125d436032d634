use device_comm::application::{command, command_with_id};
use device_comm::domain::{BatteryInfo, Device, DeviceCapabilities, DeviceType};
use device_comm::persistence::{
    get_all_migrations, pending_versions, rollback_versions, InitialSchema, Migration,
    OfflineRegionsSchema,
};

#[test]
fn test_command_with_id_success() {
    let result = command_with_id(|| Ok(42));
    assert!(result.is_ok());
    assert_eq!(result.unwrap(), 42);
}

#[test]
fn test_command_success() {
    let result = command(|| Ok(()));
    assert!(result.is_ok());
}

#[test]
fn command_passes_errors_through() {
    let result = command(|| Err(anyhow::Error::msg("Test error")));
    assert_eq!(result.unwrap_err().to_string(), "Test error");
}

#[test]
fn battery_percentage_is_capped() {
    let b = BatteryInfo::new(150, false);
    assert_eq!(b.percentage, 100);
    assert!(b.time_remaining_minutes.is_none());
    let b = BatteryInfo::new(42, true).with_time_remaining(30);
    assert_eq!(b.percentage, 42);
    assert!(b.is_charging);
    assert_eq!(b.time_remaining_minutes, Some(30));
}

#[test]
fn battery_thresholds() {
    assert!(BatteryInfo::new(19, false).is_low());
    assert!(!BatteryInfo::new(20, false).is_low());
    assert!(!BatteryInfo::new(5, true).is_low());
    assert!(BatteryInfo::new(9, false).is_critical());
    assert!(!BatteryInfo::new(10, false).is_critical());
    assert!(!BatteryInfo::new(3, true).is_critical());
}

#[test]
fn device_capabilities_builders() {
    let c = DeviceCapabilities::new(320, 240);
    assert_eq!((c.screen_width, c.screen_height), (320, 240));
    assert!(c.supports_color && !c.supports_haptic && !c.supports_voice);
    assert_eq!(c.battery_capacity_mah, 0);
    let c = c.with_features(false, true, true);
    assert!(!c.supports_color && c.supports_haptic && c.supports_voice);
    assert_eq!(c.screen_width, 320);
}

#[test]
fn migrations_registry() {
    let all = get_all_migrations();
    assert_eq!(all.len(), 1);
    assert_eq!(all[0].version(), 20231201000000);
    assert!(all[0].up().contains("CREATE TABLE IF NOT EXISTS devices"));
    assert!(InitialSchema {}.down().is_some());
    let offline = OfflineRegionsSchema {};
    assert_eq!(offline.version(), 20250212000000);
    assert!(offline.up().contains("offline_regions"));
}

struct OneDevice {
    deleted: std::sync::Mutex<Option<i64>>,
}

impl device_comm::persistence::Repository<device_comm::persistence::DeviceEntity, i64> for OneDevice {
    fn get_all(&self) -> Result<Vec<device_comm::persistence::DeviceEntity>, anyhow::Error> {
        Ok(vec![])
    }
    fn get_by_id(
        &self,
        _id: i64,
    ) -> Result<Option<device_comm::persistence::DeviceEntity>, anyhow::Error> {
        Ok(None)
    }
    fn insert(&self, _entity: device_comm::persistence::DeviceEntity) -> Result<i64, anyhow::Error> {
        Ok(1)
    }
    fn update(
        &self,
        _id: i64,
        _entity: device_comm::persistence::DeviceEntity,
    ) -> Result<(), anyhow::Error> {
        Ok(())
    }
    fn delete(&self, id: i64) -> Result<(), anyhow::Error> {
        if id == 7 {
            *self.deleted.lock().unwrap() = Some(id);
            Ok(())
        } else {
            Err(anyhow::Error::msg("no such device"))
        }
    }
}

#[test]
fn delete_device_forwards_to_repository() {
    let repo = OneDevice { deleted: std::sync::Mutex::new(None) };
    assert!(device_comm::persistence::delete_device(&repo, 7).is_ok());
    assert_eq!(*repo.deleted.lock().unwrap(), Some(7));
    let err = device_comm::persistence::delete_device(&repo, 8).unwrap_err();
    assert_eq!(err.to_string(), "no such device");
}

#[test]
fn pending_versions_sorted_and_filtered() {
    let available = vec![20250212000000, 20231201000000, 20240101000000, 20231201000000];
    let applied = vec![20240101000000];
    assert_eq!(pending_versions(&available, &applied), vec![20231201000000, 20250212000000]);
    assert!(pending_versions(&available, &available).is_empty());
    assert!(pending_versions(&vec![], &applied).is_empty());
}

#[test]
fn rollback_versions_newest_first() {
    let applied = vec![1, 2, 3, 4];
    assert_eq!(rollback_versions(&applied, 2), vec![4, 3]);
    assert_eq!(rollback_versions(&applied, 10), vec![4, 3, 2, 1]);
    assert!(rollback_versions(&applied, 0).is_empty());
    assert!(rollback_versions(&vec![], 3).is_empty());
}

#[test]
fn device_tracks_times_and_battery() {
    let mut d = Device::new(
        "d1".to_string(),
        "Watch".to_string(),
        DeviceType::WearOsWatch,
        DeviceCapabilities::new(454, 454),
        1000,
    );
    assert_eq!((d.connected_at_ms, d.last_seen_ms), (1000, 1000));
    assert!(d.battery_status.is_none());
    d.update_battery(BatteryInfo::new(55, false), 2000);
    assert_eq!(d.battery_status.unwrap().percentage, 55);
    assert_eq!((d.connected_at_ms, d.last_seen_ms), (1000, 2000));
    d.update_last_seen(3000);
    assert_eq!(d.last_seen_ms, 3000);
    assert_eq!(d.device_type, DeviceType::WearOsWatch);
}
