use ddr_mount::config::Config;
use ddr_mount::error::{
    convert_error_string, file_not_found, mount_error_clean, no_unmount_device_message, ExitCode,
    FileType, Token,
};

fn sample() -> Config {
    let mut c = Config::new();
    // inserted out of order on purpose: saving sorts the keys
    c.write_device("b.img".to_string(), 3, "/dev/loop1".to_string(), "ddrm3".to_string());
    c.write_device("a.img".to_string(), 1, "/dev/loop0".to_string(), "ddrm1".to_string());
    c
}

#[test]
fn saved_registry_has_sorted_keys() {
    let c = sample();
    assert_eq!(
        c.to_json(),
        "{\"1\":{\"image_file\":\"a.img\",\"image_mount_point\":\"/dev/loop0\",\
         \"dm_mount_point\":\"ddrm1\"},\
         \"3\":{\"image_file\":\"b.img\",\"image_mount_point\":\"/dev/loop1\",\
         \"dm_mount_point\":\"ddrm3\"}}"
    );
}

#[test]
fn empty_registry_round_trips() {
    let c = Config::new();
    assert_eq!(c.to_json(), "{}");
    let back = Config::from_json("{}").unwrap();
    assert_eq!(back.to_json(), "{}");
    assert_eq!(back.devices().len(), 0);
}

#[test]
fn load_then_save_is_byte_identical() {
    let saved = sample().to_json();
    let loaded = Config::from_json(&saved).unwrap();
    assert_eq!(loaded.to_json(), saved);
    let again = Config::from_json(&loaded.to_json()).unwrap();
    assert_eq!(again.to_json(), saved);
}

#[test]
fn loaded_registry_matches_what_was_saved() {
    let saved = sample().to_json();
    let loaded = Config::from_json(&saved).unwrap();
    let devs = loaded.devices();
    assert_eq!(devs.len(), 2);
    assert_eq!(devs[0].get_entry(), 1);
    assert_eq!(devs[0].image_file_path, "a.img");
    assert_eq!(devs[0].get_image_location(), "/dev/loop0");
    assert_eq!(devs[0].device_mount_point, "ddrm1");
    assert_eq!(devs[1].get_entry(), 3);
    assert_eq!(devs[1].image_file_path, "b.img");
}

#[test]
fn special_characters_round_trip() {
    let mut c = Config::new();
    c.write_device(
        "a \"quoted\" \\ back\nslash\ttab.img".to_string(),
        1,
        "/dev/loop0".to_string(),
        "ddrm1".to_string(),
    );
    let saved = c.to_json();
    let loaded = Config::from_json(&saved).unwrap();
    let devs = loaded.devices();
    assert_eq!(devs[0].image_file_path, "a \"quoted\" \\ back\nslash\ttab.img");
    assert_eq!(loaded.to_json(), saved);
}

#[test]
fn malformed_documents_are_refused() {
    assert!(Config::from_json("").is_none());
    assert!(Config::from_json("{").is_none());
    assert!(Config::from_json("{}x").is_none());
    assert!(Config::from_json("[]").is_none());
    // slot 0 is reserved
    assert!(Config::from_json(
        "{\"0\":{\"image_file\":\"a\",\"image_mount_point\":\"b\",\"dm_mount_point\":\"c\"}}"
    )
    .is_none());
    // leading zeros are not canonical
    assert!(Config::from_json(
        "{\"01\":{\"image_file\":\"a\",\"image_mount_point\":\"b\",\"dm_mount_point\":\"c\"}}"
    )
    .is_none());
    // two members may not share a slot
    assert!(Config::from_json(
        "{\"1\":{\"image_file\":\"a\",\"image_mount_point\":\"b\",\"dm_mount_point\":\"c\"},\
          \"1\":{\"image_file\":\"a\",\"image_mount_point\":\"b\",\"dm_mount_point\":\"c\"}}"
    )
    .is_none());
    // a missing field is refused
    assert!(Config::from_json(
        "{\"1\":{\"image_file\":\"a\",\"image_mount_point\":\"b\"}}"
    )
    .is_none());
    // a duplicated field is refused
    assert!(Config::from_json(
        "{\"1\":{\"image_file\":\"a\",\"image_file\":\"b\",\"dm_mount_point\":\"c\"}}"
    )
    .is_none());
}

#[test]
fn whitespace_is_insignificant() {
    let c = Config::from_json("{}\n").unwrap();
    assert_eq!(c.devices().len(), 0);
    let c = Config::from_json(" {\t} ").unwrap();
    assert_eq!(c.devices().len(), 0);
    let pretty = "{\n  \"1\": {\n    \"image_file\": \"a.img\",\n    \
                  \"image_mount_point\": \"/dev/loop0\",\n    \
                  \"dm_mount_point\": \"ddrm1\"\n  }\n}\n";
    let c = Config::from_json(pretty).unwrap();
    let devs = c.devices();
    assert_eq!(devs.len(), 1);
    assert_eq!(devs[0].image_file_path, "a.img");
    assert_eq!(
        c.to_json(),
        "{\"1\":{\"image_file\":\"a.img\",\"image_mount_point\":\"/dev/loop0\",\
         \"dm_mount_point\":\"ddrm1\"}}"
    );
}

#[test]
fn members_load_in_any_order() {
    let unsorted = "{\"3\":{\"image_file\":\"b.img\",\"image_mount_point\":\"/dev/loop1\",\
                    \"dm_mount_point\":\"ddrm3\"},\
                    \"1\":{\"image_file\":\"a.img\",\"image_mount_point\":\"/dev/loop0\",\
                    \"dm_mount_point\":\"ddrm1\"}}";
    let c = Config::from_json(unsorted).unwrap();
    let devs = c.devices();
    assert_eq!(devs.len(), 2);
    assert_eq!(devs[0].get_entry(), 3);
    assert_eq!(devs[1].get_entry(), 1);
    // saving sorts the keys again
    assert_eq!(c.to_json(), sample().to_json());
}

#[test]
fn fields_load_in_any_order() {
    let permuted = "{\"1\":{\"dm_mount_point\":\"ddrm1\",\"image_file\":\"a.img\",\
                    \"image_mount_point\":\"/dev/loop0\"}}";
    let c = Config::from_json(permuted).unwrap();
    let devs = c.devices();
    assert_eq!(devs.len(), 1);
    assert_eq!(devs[0].image_file_path, "a.img");
    assert_eq!(devs[0].get_image_location(), "/dev/loop0");
    assert_eq!(devs[0].device_mount_point, "ddrm1");
}

#[test]
fn exit_codes_are_stable() {
    assert_eq!(ExitCode::FileError.code(), 1);
    assert_eq!(ExitCode::_ArgumentError.code(), 2);
    assert_eq!(ExitCode::ConfigError.code(), 3);
    assert_eq!(ExitCode::MountError.code(), 4);
    assert_eq!(ExitCode::NonRoot.code(), 5);
    assert_eq!(ExitCode::OOMError.code(), 6);
    assert_eq!(ExitCode::ParseError.code(), 7);
    assert_eq!(ExitCode::UnmountError.code(), 8);
    assert_eq!(ExitCode::SectorSizeError.code(), 9);
    assert_eq!(ExitCode::UnknownError.code(), 10);
}

#[test]
fn error_messages() {
    assert_eq!(FileType::MapFile.to_string(), "map file");
    assert_eq!(FileType::ImageFile.to_string(), "image file");
    assert_eq!(file_not_found(FileType::MapFile), "Unable to find map file");
    assert_eq!(file_not_found(FileType::ImageFile), "Unable to find image file");
    assert_eq!(Token::Pos.to_string(), "position");
    assert_eq!(Token::Size.to_string(), "size");
    assert_eq!(Token::CurrentPos.to_string(), "current position");
    assert_eq!(
        convert_error_string(Token::Size),
        "Could not convert size to decimal"
    );
    assert_eq!(
        no_unmount_device_message("ddrm4"),
        "Unmount error: Unable to find device ddrm4"
    );
    let cleanup = mount_error_clean("/dev/loop3");
    assert_eq!(cleanup.device, "/dev/loop3");
}
