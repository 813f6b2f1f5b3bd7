use platypus_core::device::{CloneImageProfile, Ft60, ProfileRegistry, RadioProfile, SdCardProfile, Sds150};
use platypus_core::format::FileHeader;

fn ids(reg: &ProfileRegistry) -> Vec<&'static str> {
    reg.profiles().iter().map(|p| p.id()).collect()
}

#[test]
fn builtin_registry_lists_each_class_in_order() {
    let reg = ProfileRegistry::with_builtins();
    assert_eq!(ids(&reg), vec!["sds150", "ft60r"]);
    let sd: Vec<&str> = reg.sd_card_profiles().iter().map(|p| p.id()).collect();
    assert_eq!(sd, vec!["sds150"]);
    assert_eq!(reg.sd_card_profiles()[0].product_name(), "SDS150");
    let clone: Vec<&str> = reg.clone_image_profiles().iter().map(|p| p.id()).collect();
    assert_eq!(clone, vec!["ft60r"]);
    assert_eq!(reg.clone_image().map(|p| p.product_name()), Some("FT-60R"));
}

#[test]
fn empty_registry_finds_nothing() {
    let reg = ProfileRegistry::new();
    assert!(reg.profiles().is_empty());
    assert!(reg.sd_card_profiles().is_empty());
    assert!(reg.clone_image_profiles().is_empty());
    assert!(reg.clone_image().is_none());
    let h = FileHeader { target_model: Some("BCDx36HP".into()), format_version: Some("1.00".into()) };
    assert!(reg.detect(&h).is_none());
    assert!(reg.detect_clone_image(b"AH017\x00\x00\x00").is_none());
}

#[test]
fn register_appends_the_given_profile_last() {
    let mut reg = ProfileRegistry::new();
    reg.register(Box::new(Ft60::new()));
    assert_eq!(ids(&reg), vec!["ft60r"]);
    reg.register(Box::new(Sds150::new()));
    assert_eq!(ids(&reg), vec!["ft60r", "sds150"]);
    let sd: Vec<&str> = reg.sd_card_profiles().iter().map(|p| p.product_name()).collect();
    assert_eq!(sd, vec!["SDS150"]);
    let clone: Vec<&str> = reg.clone_image_profiles().iter().map(|p| p.product_name()).collect();
    assert_eq!(clone, vec!["FT-60R"]);
    let h = FileHeader { target_model: Some("BCDx36HP".into()), format_version: None };
    assert_eq!(reg.detect(&h).map(|p| p.id()), Some("sds150"));
    assert_eq!(reg.detect_clone_image(b"AH017\x00").map(|p| p.id()), Some("ft60r"));
}

#[test]
fn later_registrations_do_not_displace_earlier_ones() {
    let mut reg = ProfileRegistry::with_builtins();
    reg.register(Box::new(Sds150::new()));
    reg.register(Box::new(Ft60::new()));
    assert_eq!(ids(&reg), vec!["sds150", "ft60r", "sds150", "ft60r"]);
    assert_eq!(reg.sd_card_profiles().len(), 2);
    assert_eq!(reg.clone_image_profiles().len(), 2);
    let h = FileHeader { target_model: Some("BCDx36HP".into()), format_version: Some("1.00".into()) };
    assert_eq!(reg.detect(&h).map(|p| p.product_name()), Some("SDS150"));
    assert_eq!(reg.detect_clone_image(b"AH017\x00\x00\x00").map(|p| p.product_name()), Some("FT-60R"));
    assert!(reg.detect_clone_image(b"AH01").is_none());
}
