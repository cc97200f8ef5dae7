use rshttp2::settings::{SettingKey, Settings, ALL_SETTING_KEYS};

#[test]
fn setting_keys() {
    for (i, key) in ALL_SETTING_KEYS.iter().enumerate() {
        assert_eq!(key.to_h2_id(), i + 1);
        assert_eq!(SettingKey::from_h2_id(i + 1), *key);
    }
}

#[test]
fn settings_defaults_and_updates() {
    let mut s = Settings::new();
    assert_eq!(s.get(SettingKey::HeaderTableSize), 4096);
    assert_eq!(s.get(SettingKey::EnablePush), 1);
    assert_eq!(s.get(SettingKey::MaxConcurrentStreams), 100);
    assert_eq!(s.get(SettingKey::InitialWindowSize), 65535);
    assert_eq!(s.get(SettingKey::MaxFrameSize), 16384);
    assert_eq!(s.get(SettingKey::MaxHeaderListSize), u32::MAX);
    s.set(SettingKey::MaxFrameSize, 7);
    assert_eq!(s.get(SettingKey::MaxFrameSize), 7);
    assert_eq!(s.get(SettingKey::InitialWindowSize), 65535);
    s.apply(&vec![
        (SettingKey::EnablePush, 0),
        (SettingKey::MaxFrameSize, 8),
        (SettingKey::EnablePush, 5),
    ]);
    assert_eq!(s.get(SettingKey::EnablePush), 5);
    assert_eq!(s.get(SettingKey::MaxFrameSize), 8);
    assert_eq!(s.get(SettingKey::HeaderTableSize), 4096);
}
