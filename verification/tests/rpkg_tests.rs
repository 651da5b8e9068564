use lib::pkg::rpkg::{
    build_install_plan, manifest_summary, parse_header, section, validate_header, Error, PackageHeader,
    SectionKind, RPK_MAGIC,
};

fn make_fake_rpk() -> Vec<u8> {
    let manifest = b"[package]\nname = \"demo\"\nversion = \"1.0.0\"\narch = \"x86_64\"\n";
    let signature = b"sig";
    let data = b"DATA";

    let mo = 56u64;
    let ms = manifest.len() as u64;
    let so = mo + ms;
    let ss = signature.len() as u64;
    let doff = so + ss;
    let ds = data.len() as u64;

    let mut out = vec![0u8; 56];
    out[0..4].copy_from_slice(&RPK_MAGIC);
    out[4..8].copy_from_slice(&1u32.to_le_bytes());
    out[8..16].copy_from_slice(&mo.to_le_bytes());
    out[16..24].copy_from_slice(&ms.to_le_bytes());
    out[24..32].copy_from_slice(&so.to_le_bytes());
    out[32..40].copy_from_slice(&ss.to_le_bytes());
    out[40..48].copy_from_slice(&doff.to_le_bytes());
    out[48..56].copy_from_slice(&ds.to_le_bytes());
    out.extend_from_slice(manifest);
    out.extend_from_slice(signature);
    out.extend_from_slice(data);
    out
}

#[test]
fn parse_header_ok() {
    let rpk = make_fake_rpk();
    let h = parse_header(&rpk).unwrap();
    assert_eq!(h.format_version, 1);
    assert_eq!(h.manifest_offset, 56);
}

#[test]
fn summary_ok() {
    let rpk = make_fake_rpk();
    let h = parse_header(&rpk).unwrap();
    let m = section(&rpk, &h, SectionKind::Manifest).unwrap();
    let s = manifest_summary(m).unwrap();
    assert_eq!(s.name.as_deref(), Some("demo"));
}

#[test]
fn header_errors() {
    let rpk = make_fake_rpk();
    assert_eq!(parse_header(&rpk[..55]), Err(Error::TooShort));
    let mut bad = rpk.clone();
    bad[3] = 2;
    assert_eq!(parse_header(&bad), Err(Error::InvalidMagic));
    let mut short = rpk.clone();
    short.truncate(rpk.len() - 1);
    assert_eq!(parse_header(&short), Err(Error::InvalidBounds));
}

#[test]
fn validate_header_rules() {
    let h = PackageHeader {
        format_version: 1,
        manifest_offset: 56,
        manifest_size: 10,
        signature_offset: 66,
        signature_size: 0,
        data_offset: 66,
        data_size: 4,
    };
    assert_eq!(validate_header(&h, 70), Ok(()));
    assert_eq!(validate_header(&h, 69), Err(Error::InvalidBounds));
    let empty_data = PackageHeader { data_size: 0, ..h };
    assert_eq!(validate_header(&empty_data, 70), Err(Error::InvalidBounds));
    let overflow = PackageHeader { signature_offset: u64::MAX, signature_size: 1, ..h };
    assert_eq!(validate_header(&overflow, u64::MAX), Err(Error::InvalidBounds));
}

#[test]
fn sections_by_kind() {
    let rpk = make_fake_rpk();
    let h = parse_header(&rpk).unwrap();
    assert_eq!(section(&rpk, &h, SectionKind::Signature).unwrap(), b"sig");
    assert_eq!(section(&rpk, &h, SectionKind::Data).unwrap(), b"DATA");
    let far = PackageHeader { data_offset: 1000, ..h };
    assert_eq!(section(&rpk, &far, SectionKind::Data), Err(Error::MissingSection));
    let wrap = PackageHeader { data_offset: u64::MAX, data_size: 2, ..h };
    assert_eq!(section(&rpk, &wrap, SectionKind::Data), Err(Error::InvalidBounds));
}

#[test]
fn manifest_reader_rules() {
    let text = b"# comment\nname = \"outside\"\n[other]\nname = \"no\"\n[package]\r\n  version = \"\"2.0\"\"  \narch=x86_64\nname = first\nname = \"second\"\njunk line\n";
    let s = manifest_summary(text).unwrap();
    assert_eq!(s.name.as_deref(), Some("second"));
    assert_eq!(s.version.as_deref(), Some("2.0"));
    assert_eq!(s.arch.as_deref(), Some("x86_64"));
    let none = manifest_summary(b"").unwrap();
    assert!(none.name.is_none() && none.version.is_none() && none.arch.is_none());
    assert_eq!(manifest_summary(&[0xff, 0xfe]), Err(Error::InvalidUtf8));
}

#[test]
fn install_plan_paths() {
    let rpk = make_fake_rpk();
    let plan = build_install_plan(&rpk, "/tmp/demo.rpk", "/var/lib/rpkg//").unwrap();
    assert_eq!(plan.package_name.as_deref(), Some("demo"));
    assert_eq!(plan.package_version.as_deref(), Some("1.0.0"));
    assert_eq!(plan.source_file, "/tmp/demo.rpk");
    assert_eq!(plan.db_root, "/var/lib/rpkg//");
    assert_eq!(plan.info_dir, "/var/lib/rpkg/info/demo");
    assert_eq!(build_install_plan(&rpk[..10], "x", "/db"), Err(Error::TooShort));
}
