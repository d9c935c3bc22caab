use spm::types::config::SpmConfig;
use spm::types::package::{Package, PackageFormat, PackageId};
use spm::types::version::{rpmvercmp, Version};

#[test]
fn test_spm_config_default() {
    let cfg = SpmConfig::default();
    assert!(cfg.db_path.is_none());
    assert!(cfg.cache_path.is_none());
    assert!(cfg.sandbox_path.is_none());
    assert!(cfg.log_level.is_none());
    assert!(cfg.auto_snapshot.is_none());
}

#[test]
fn test_package_default() {
    let pkg = Package::default();
    assert_eq!(pkg.name, "");
    assert_eq!(pkg.version, "");
    assert!(pkg.dependencies.is_empty());
    assert_eq!(pkg.format, PackageFormat::Deb);
}

#[test]
fn test_version_parse() {
    let v = Version::parse("2:1.2.3-1");
    assert_eq!(v.epoch, 2);
    assert_eq!(v.version, "1.2.3");
    assert_eq!(v.release, "1");

    let v = Version::parse("1.0-1");
    assert_eq!(v.epoch, 0);
    assert_eq!(v.version, "1.0");
    assert_eq!(v.release, "1");

    let v = Version::parse("1.0");
    assert_eq!(v.release, "");
}

#[test]
fn test_version_compare() {
    assert!(Version::compare("1.0-1", "1.0-2").is_lt());
    assert!(Version::compare("2.0-1", "1.0-1").is_gt());
    assert!(Version::compare("2:1.0-1", "1:2.0-1").is_gt());
    assert!(Version::compare("1:1.0-1", "1.0-1").is_gt());
    assert!(Version::compare("1.0-1", "1.0-1").is_eq());
    assert!(Version::compare("1.2.3-1", "1.2.10-1").is_lt());
    assert!(Version::compare("1.10-1", "1.2-1").is_gt());
    assert!(Version::compare("1.0a-1", "1.0b-1").is_lt());
    assert!(Version::compare("1.0~rc1-1", "1.0-1").is_lt());
    assert!(Version::compare("1.0~rc2-1", "1.0~rc1-1").is_gt());
    assert!(Version::compare("1.0-1.fc40", "1.0-1.fc39").is_gt());
}

#[test]
fn test_rpmvercmp_basic() {
    assert_eq!(rpmvercmp("1", "2"), std::cmp::Ordering::Less);
    assert_eq!(rpmvercmp("2", "1"), std::cmp::Ordering::Greater);
    assert_eq!(rpmvercmp("1", "1"), std::cmp::Ordering::Equal);
    assert_eq!(rpmvercmp("1.2", "1.10"), std::cmp::Ordering::Less);
    assert_eq!(rpmvercmp("1.10", "1.2"), std::cmp::Ordering::Greater);
    assert_eq!(rpmvercmp("1a", "1b"), std::cmp::Ordering::Less);
    assert_eq!(rpmvercmp("1b", "1a"), std::cmp::Ordering::Greater);
    assert_eq!(rpmvercmp("1a", "1a"), std::cmp::Ordering::Equal);
    assert_eq!(rpmvercmp("1~rc1", "1"), std::cmp::Ordering::Less);
    assert_eq!(rpmvercmp("1", "1~rc1"), std::cmp::Ordering::Greater);
    assert_eq!(rpmvercmp("1~rc1", "1~rc2"), std::cmp::Ordering::Less);
}

#[test]
fn version_render_and_reparse() {
    let v = Version::parse("3:2.5-7");
    assert_eq!(v.render(), "3:2.5-7");
    let w = Version::parse(&v.render());
    assert!(v.compare_to(&w).is_eq());
    assert_eq!(Version::parse("1.0").render(), "1.0");
}

#[test]
fn rpmvercmp_is_antisymmetric_on_samples() {
    let samples = ["1.0", "1.0a", "1.0~rc1", "2", "1.10", "1.2", "abc", ""];
    for a in samples.iter() {
        for b in samples.iter() {
            assert_eq!(rpmvercmp(a, b), rpmvercmp(b, a).reverse());
        }
    }
}

#[test]
fn package_id_key_round_trip() {
    let id = PackageId::new("nginx", PackageFormat::Rpm);
    assert_eq!(id.package_key(), "nginx:rpm");
    let back = PackageId::from_str(&id.package_key()).unwrap();
    assert_eq!(back.name, "nginx");
    assert_eq!(back.format, PackageFormat::Rpm);
    assert_eq!(PackageId::from_str("a:b:SAM").unwrap().name, "a:b");
    assert!(PackageId::from_str("nginx").is_none());
    assert!(PackageId::from_str("nginx:zip").is_none());
}
