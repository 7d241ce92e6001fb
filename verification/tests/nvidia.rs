use fand::source::nvidia::{
    Nvidia, NvidiaDevice, NvidiaDeviceHandle, NvidiaError, SourceNvidia, SourceNvidiaError,
};
use fand::source::SourceError;
use std::cell::Cell;
use std::mem::size_of;

#[test]
fn nvidia_error_sizes() {
    assert_eq!(size_of::<NvidiaError>(), size_of::<i32>());
    assert_eq!(size_of::<Option<NvidiaError>>(), size_of::<NvidiaError>());
    assert_eq!(
        size_of::<Result<(), NvidiaError>>(),
        size_of::<NvidiaError>()
    );
}

fn error(status: i32) -> NvidiaError {
    NvidiaError::from_status(status).unwrap()
}

fn card(address: usize, name: &str, uuid: &str) -> NvidiaDevice {
    NvidiaDevice {
        handle: NvidiaDeviceHandle::from_raw(address),
        name: Ok(name.to_string()),
        uuid: Ok(uuid.to_string()),
    }
}

fn session(devices: Vec<NvidiaDevice>) -> Nvidia {
    let mut nvidia = Nvidia::null();
    assert!(nvidia.is_null());
    nvidia.init(devices);
    assert!(!nvidia.is_null());
    nvidia
}

fn three() -> Nvidia {
    session(vec![
        card(0x10, "RTX 3080", "GPU-aaa"),
        card(0x20, "RTX 4090", "GPU-bbb"),
        card(0x30, "RTX 4090", "GPU-ccc"),
    ])
}

fn chosen(nvidia: &Nvidia, name: Option<&str>, uuid: Option<&str>) -> Result<usize, SourceNvidiaError> {
    SourceNvidia::new(nvidia, name.map(str::to_string), uuid.map(str::to_string))
        .map(|source| source.handle().raw())
}

#[test]
fn status_zero_is_success() {
    assert!(NvidiaError::from_status(0).is_none());
    assert!(NvidiaError::check(0).is_ok());
    for status in [1, 2, 9, 999, -1, i32::MIN, i32::MAX] {
        assert_eq!(NvidiaError::from_status(status).unwrap().code(), status);
        assert_eq!(NvidiaError::check(status).unwrap_err().code(), status);
    }
    assert_eq!(error(3), error(3));
    assert_ne!(error(3), error(4));
    let copy = error(5);
    assert_eq!(copy.clone().code(), 5);
}

#[test]
fn handles_are_addresses() {
    assert!(NvidiaDeviceHandle::null().is_null());
    assert_eq!(NvidiaDeviceHandle::null().raw(), 0);
    assert!(!NvidiaDeviceHandle::from_raw(0x7f00).is_null());
    assert_eq!(NvidiaDeviceHandle::from_raw(0x7f00).raw(), 0x7f00);
}

#[test]
fn a_reading_counts_only_with_status_zero() {
    let handle = NvidiaDeviceHandle::from_raw(1);
    assert_eq!(handle.temp(0, 61), Ok(61));
    assert_eq!(handle.temp(15, 61), Err(error(15)));
    let source = SourceNvidia::new(&three(), None, None).unwrap();
    let asked = Cell::new(0);
    let describe = |e: NvidiaError| {
        asked.set(asked.get() + 1);
        format!("message {}", e.code())
    };
    let t = source.try_get_temperature(0, 61, &describe).unwrap();
    assert_eq!(f32::from_bits(t.celsius()), 61.0);
    assert_eq!(asked.get(), 0);
    let failed = source.try_get_temperature(15, 61, &describe);
    assert!(
        matches!(&failed, Err(SourceError::Driver(e, message)) if e.code() == 15 && message == "message 15")
    );
    assert_eq!(asked.get(), 1);
    assert_eq!(failed.unwrap_err().message(), "message 15");
    let negative = source.try_get_temperature(-3, 0, |_| "Unknown Error".to_string());
    assert!(
        matches!(negative, Err(SourceError::Driver(e, message)) if e.code() == -3 && message == "Unknown Error")
    );
}

#[test]
fn without_filters_the_first_card_is_taken() {
    assert_eq!(chosen(&three(), None, None).unwrap(), 0x10);
}

#[test]
fn one_filter_decides_alone() {
    assert_eq!(chosen(&three(), Some("RTX 4090"), None).unwrap(), 0x20);
    assert_eq!(chosen(&three(), None, Some("GPU-ccc")).unwrap(), 0x30);
    assert_eq!(chosen(&three(), Some("RTX 3080"), None).unwrap(), 0x10);
}

#[test]
fn two_filters_must_both_fit() {
    assert_eq!(chosen(&three(), Some("RTX 4090"), Some("GPU-ccc")).unwrap(), 0x30);
    assert_eq!(chosen(&three(), Some("RTX 4090"), Some("GPU-bbb")).unwrap(), 0x20);
    let none = chosen(&three(), Some("RTX 3080"), Some("GPU-ccc"));
    assert!(matches!(
        none,
        Err(SourceNvidiaError::NotFound { name: Some(n), uuid: Some(u) }) if n == "RTX 3080" && u == "GPU-ccc"
    ));
}

#[test]
fn no_card_at_all() {
    let empty = session(vec![]);
    assert!(matches!(chosen(&empty, None, None), Err(SourceNvidiaError::NoDevices)));
    assert!(matches!(chosen(&empty, Some("RTX 4090"), None), Err(SourceNvidiaError::NoDevices)));
    assert!(matches!(chosen(&empty, Some("a"), Some("b")), Err(SourceNvidiaError::NoDevices)));
}

#[test]
fn no_card_that_fits() {
    let by_name = chosen(&three(), Some("GTX 1080"), None);
    assert!(matches!(
        by_name,
        Err(SourceNvidiaError::NotFound { name: Some(n), uuid: None }) if n == "GTX 1080"
    ));
    let by_uuid = chosen(&three(), None, Some("GPU-zzz"));
    assert!(matches!(
        by_uuid,
        Err(SourceNvidiaError::NotFound { name: None, uuid: Some(u) }) if u == "GPU-zzz"
    ));
    assert!(matches!(chosen(&three(), Some("rtx 4090"), None), Err(SourceNvidiaError::NotFound { .. })));
    assert!(matches!(chosen(&three(), Some("RTX 409"), None), Err(SourceNvidiaError::NotFound { .. })));
    assert!(matches!(chosen(&three(), Some(""), None), Err(SourceNvidiaError::NotFound { .. })));
}

#[test]
fn a_driver_failure_ends_the_search() {
    let broken = || {
        session(vec![
            card(0x10, "RTX 3080", "GPU-aaa"),
            NvidiaDevice {
                handle: NvidiaDeviceHandle::from_raw(0x20),
                name: Err(error(15)),
                uuid: Err(error(16)),
            },
            card(0x30, "RTX 4090", "GPU-ccc"),
        ])
    };
    // The first card fits: the failing one is never looked at.
    assert_eq!(chosen(&broken(), Some("RTX 3080"), None).unwrap(), 0x10);
    assert_eq!(chosen(&broken(), None, None).unwrap(), 0x10);
    // The failing card stands before the fitting one.
    assert!(matches!(chosen(&broken(), Some("RTX 4090"), None), Err(SourceNvidiaError::Error(e)) if e.code() == 15));
    assert!(matches!(chosen(&broken(), None, Some("GPU-ccc")), Err(SourceNvidiaError::Error(e)) if e.code() == 16));
    assert!(matches!(chosen(&broken(), Some("x"), Some("GPU-ccc")), Err(SourceNvidiaError::Error(e)) if e.code() == 15));
}

#[test]
fn the_identifier_is_asked_only_where_the_name_fits() {
    let nvidia = session(vec![
        NvidiaDevice {
            handle: NvidiaDeviceHandle::from_raw(0x10),
            name: Ok("RTX 3080".to_string()),
            uuid: Err(error(7)),
        },
        card(0x20, "RTX 4090", "GPU-bbb"),
    ]);
    assert_eq!(chosen(&nvidia, Some("RTX 4090"), Some("GPU-bbb")).unwrap(), 0x20);
    assert!(matches!(
        chosen(&nvidia, Some("RTX 3080"), Some("GPU-bbb")),
        Err(SourceNvidiaError::Error(e)) if e.code() == 7
    ));
    assert_eq!(chosen(&nvidia, Some("RTX 3080"), None).unwrap(), 0x10);
}

#[test]
fn search_with_any_filter() {
    let nvidia = three();
    assert_eq!(nvidia.devices().len(), 3);
    let found = nvidia.try_find_device(|d| Ok::<bool, ()>(d.handle.raw() > 0x10)).unwrap();
    assert_eq!(found.unwrap().handle.raw(), 0x20);
    let none = nvidia.try_find_device(|_| Ok::<bool, ()>(false)).unwrap();
    assert!(none.is_none());
    let failed = nvidia.try_find_device(|d| if d.handle.raw() == 0x20 { Err(d.handle.raw()) } else { Ok(false) });
    assert_eq!(failed.unwrap_err(), 0x20);
}
