use lib::pkg::rpkg::RPK_MAGIC;
use lib::pkg::rpkg_cli::{
    bytes_to_string, info_root, join_path, listed_packages, parse_files_list, plan_package_install, removal_paths,
    serialize_files_list, with_nul, InstallError, MAX_RPK_BYTES,
};

fn rpk(manifest: &[u8], data: &[u8]) -> Vec<u8> {
    let signature = b"sig";
    let mo = 56u64;
    let ms = manifest.len() as u64;
    let so = mo + ms;
    let ss = signature.len() as u64;
    let doff = so + ss;
    let ds = data.len() as u64;
    let mut out = vec![0u8; 56];
    out[0..4].copy_from_slice(&RPK_MAGIC);
    out[4..8].copy_from_slice(&1u32.to_le_bytes());
    out[8..16].copy_from_slice(&mo.to_le_bytes());
    out[16..24].copy_from_slice(&ms.to_le_bytes());
    out[24..32].copy_from_slice(&so.to_le_bytes());
    out[32..40].copy_from_slice(&ss.to_le_bytes());
    out[40..48].copy_from_slice(&doff.to_le_bytes());
    out[48..56].copy_from_slice(&ds.to_le_bytes());
    out.extend_from_slice(manifest);
    out.extend_from_slice(signature);
    out.extend_from_slice(data);
    out
}

#[test]
fn join_path_uses_one_separator() {
    assert_eq!(join_path(b"/var/lib", b"rpkg"), b"/var/lib/rpkg".to_vec());
    assert_eq!(join_path(b"/var/lib/", b"/rpkg"), b"/var/lib/rpkg".to_vec());
    assert_eq!(join_path(b"", b""), b"/".to_vec());
    assert_eq!(join_path(b"a//", b"//b"), b"a///b".to_vec());
}

#[test]
fn with_nul_terminates_once() {
    assert_eq!(with_nul(b"/x"), b"/x\0".to_vec());
    assert_eq!(with_nul(b"/x\0"), b"/x\0".to_vec());
    assert_eq!(with_nul(b""), b"\0".to_vec());
}

#[test]
fn bytes_to_string_needs_utf8() {
    assert_eq!(bytes_to_string(b"h\xc3\xa9"), "hé");
    assert_eq!(bytes_to_string(b"\xff"), "");
}

#[test]
fn files_list_round_trips() {
    let files = vec![String::from("/a/manifest.toml"), String::from("/a/data")];
    let text = serialize_files_list(&files);
    assert_eq!(text, "/a/manifest.toml\n/a/data\n");
    assert_eq!(parse_files_list(&text), files);
    assert_eq!(parse_files_list("x\n\ny"), vec![String::from("x"), String::from("y")]);
    assert!(parse_files_list("").is_empty());
}

#[test]
fn listing_skips_dots_and_stops_at_a_torn_record() {
    let mut buf = Vec::new();
    for name in [&b"."[..], b"..", b"demo", b"tool"] {
        buf.extend_from_slice(&7u64.to_le_bytes());
        buf.push(2);
        buf.push(name.len() as u8);
        buf.extend_from_slice(name);
    }
    let n = buf.len();
    buf.extend_from_slice(&[0u8; 8]);
    buf.push(1);
    buf.push(40);
    buf.extend_from_slice(b"cut");
    assert_eq!(listed_packages(&buf, n), vec![b"demo".to_vec(), b"tool".to_vec()]);
    assert_eq!(listed_packages(&buf, buf.len()), vec![b"demo".to_vec(), b"tool".to_vec()]);
    assert_eq!(listed_packages(&buf, 5), Vec::<Vec<u8>>::new());
}

#[test]
fn install_plan_places_records_under_the_info_root() {
    let bytes = rpk(b"[package]\nname = \"demo\"\nversion = \"1.0\"\n", b"DATA");
    let plan = plan_package_install(&bytes).ok().unwrap();
    assert_eq!(info_root(), "/var/lib/rpkg/info");
    assert_eq!(plan.name, "demo");
    assert_eq!(plan.data, b"DATA");
    assert_eq!(plan.info_dir, b"/var/lib/rpkg/info/demo".to_vec());
    assert_eq!(plan.manifest_path, b"/var/lib/rpkg/info/demo/manifest.toml".to_vec());
    assert_eq!(plan.data_path, b"/var/lib/rpkg/info/demo/data".to_vec());
    assert_eq!(plan.files_path, b"/var/lib/rpkg/info/demo/files".to_vec());
    assert_eq!(plan.files_index, "/var/lib/rpkg/info/demo/manifest.toml\n/var/lib/rpkg/info/demo/data\n");
    assert!(MAX_RPK_BYTES >= bytes.len());
}

#[test]
fn install_plan_errors() {
    let mut bad = rpk(b"[package]\nname = \"demo\"\n", b"D");
    bad[0] = b'X';
    assert_eq!(plan_package_install(&bad).err(), Some(InstallError::InvalidHeader));
    let unnamed = rpk(b"[package]\nversion = \"1\"\n", b"D");
    assert_eq!(plan_package_install(&unnamed).err(), Some(InstallError::MissingName));
    let empty_name = rpk(b"[package]\nname = \"\"\n", b"D");
    assert_eq!(plan_package_install(&empty_name).err(), Some(InstallError::MissingName));
    let not_utf8 = rpk(b"[package]\nname = \"\xff\"\n", b"D");
    assert_eq!(plan_package_install(&not_utf8).err(), Some(InstallError::MalformedManifest));
}

#[test]
fn removal_paths_match_install() {
    let bytes = rpk(b"[package]\nname = \"demo\"\n", b"D");
    let plan = plan_package_install(&bytes).ok().unwrap();
    let r = removal_paths(b"demo");
    assert_eq!(r.info_dir, plan.info_dir);
    assert_eq!(r.files_path, plan.files_path);
    assert_eq!(r.manifest_path, plan.manifest_path);
    assert_eq!(r.data_path, plan.data_path);
}
