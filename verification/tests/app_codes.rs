//! Application namespace: the 16-bit code conversion is total and
//! lossless in both directions.

use storm_core::{
    StormApp, STORM_APP_CHAT, STORM_APP_FILE_TRANSFER, STORM_APP_RGB_CONTRACTS,
    STORM_APP_RGB_TRANSFERS, STORM_APP_SEARCH, STORM_APP_STORAGE, STORM_APP_SYSTEM,
};

#[test]
fn well_known_codes() {
    assert_eq!(StormApp::System.app_code(), STORM_APP_SYSTEM);
    assert_eq!(StormApp::Chat.app_code(), STORM_APP_CHAT);
    assert_eq!(StormApp::FileTransfer.app_code(), STORM_APP_FILE_TRANSFER);
    assert_eq!(StormApp::Storage.app_code(), STORM_APP_STORAGE);
    assert_eq!(StormApp::Search.app_code(), STORM_APP_SEARCH);
    assert_eq!(StormApp::RgbContracts.app_code(), STORM_APP_RGB_CONTRACTS);
    assert_eq!(StormApp::RgbTransfers.app_code(), STORM_APP_RGB_TRANSFERS);
    assert_eq!(StormApp::System.app_code(), 0x0000);
    assert_eq!(StormApp::Storage.app_code(), 0x0003);
    assert_eq!(StormApp::RgbTransfers.app_code(), 0x0011);
}

#[test]
fn roundtrip_well_known() {
    let apps = [
        StormApp::System,
        StormApp::Chat,
        StormApp::FileTransfer,
        StormApp::Storage,
        StormApp::Search,
        StormApp::RgbContracts,
        StormApp::RgbTransfers,
    ];
    for app in apps {
        assert_eq!(StormApp::from_code(app.app_code()), app);
    }
}

#[test]
fn roundtrip_boundary_codes() {
    // The last future code and the first vendor code sit on either side
    // of the vendor bit.
    assert_eq!(StormApp::from_code(0x7FFF), StormApp::Future(0x7FFF));
    assert_eq!(StormApp::from_code(0x8000), StormApp::Vendor(0x8000));
    assert_eq!(StormApp::Future(0x7FFF).app_code(), 0x7FFF);
    assert_eq!(StormApp::Vendor(0x8000).app_code(), 0x8000);
    assert_eq!(
        StormApp::from_code(StormApp::Future(0x7FFF).app_code()),
        StormApp::Future(0x7FFF)
    );
    assert_eq!(
        StormApp::from_code(StormApp::Vendor(0x8000).app_code()),
        StormApp::Vendor(0x8000)
    );
}

#[test]
fn from_conversions_match_code_methods() {
    assert_eq!(StormApp::from(0x8000u16), StormApp::Vendor(0x8000));
    assert_eq!(u16::from(StormApp::Search), 0x0004);
    assert_eq!(StormApp::from(u16::from(StormApp::RgbContracts)), StormApp::RgbContracts);
}

#[test]
fn every_code_keeps_its_value() {
    for code in [0u16, 1, 2, 3, 4, 5, 0x10, 0x11, 0x12, 0x7FFF, 0x8000, 0xABCD, 0xFFFF] {
        assert_eq!(StormApp::from_code(code).app_code(), code);
    }
}

#[test]
fn sorted_app_set_construction() {
    let mut apps: Vec<StormApp> = Vec::new();
    for app in [
        StormApp::Vendor(0x8004),
        StormApp::Chat,
        StormApp::Storage,
        StormApp::Chat,
        StormApp::Future(0x20),
        StormApp::System,
    ] {
        storm_core::app::insert_sorted_app(&mut apps, app);
    }
    // Duplicates collapse and the set comes out in serialization order.
    assert_eq!(
        apps,
        vec![
            StormApp::System,
            StormApp::Chat,
            StormApp::Storage,
            StormApp::Future(0x20),
            StormApp::Vendor(0x8004),
        ]
    );
}
