use wifl::catalog::{parse_catalog, parse_versions, CatalogError, EsdFile};

const VERSIONS: &str = r#"<?xml version="1.0"?>
<versions>
  <version number="11">
    <releases>
      <release build="22631.2861"><date>20231212</date></release>
      <release build=""><date>20230101</date></release>
      <release build="22621.525"/>
    </releases>
  </version>
  <version number=""><release build="1"><date>x</date></release></version>
  <version number="10"/>
</versions>"#;

#[test]
fn versions_are_read_in_order() {
    let v = parse_versions(VERSIONS).unwrap();
    assert_eq!(v.len(), 2);
    assert_eq!(v[0].number, "11");
    assert_eq!(v[0].releases.len(), 2);
    assert_eq!(v[0].releases[0].build, "22631.2861");
    assert_eq!(v[0].releases[0].date, "20231212");
    assert_eq!(v[0].releases[1].build, "22621.525");
    assert_eq!(v[0].releases[1].date, "");
    assert_eq!(v[1].number, "10");
    assert!(v[1].releases.is_empty());
}

#[test]
fn malformed_versions_are_an_error() {
    assert!(matches!(parse_versions("<versions>"), Err(CatalogError::Versions(_))));
}

const CATALOG: &str = r#"<MCT><Catalogs><Catalog><PublishedMedia><Files>
<File>
  <FileName>22631.2861.231204-0538.23H2_NI_RELEASE_SVC_REFRESH_CLIENTCONSUMER_RET_A64FRE_en-us.esd</FileName>
  <LanguageCode>en-us</LanguageCode>
  <Language>English (United States)</Language>
  <Edition>Professional, Core , ,Education</Edition>
  <Architecture>ARM64</Architecture>
  <Size>4294967296</Size>
  <Sha256>ABCDEF</Sha256>
  <FilePath>http://dl.example/a.esd</FilePath>
</File>
<File><FileName>b.esd</FileName><Architecture></Architecture><FilePath>http://x</FilePath></File>
<File><FileName>c_CLIENTBUSINESS_VOL.esd</FileName><Architecture>x64</Architecture><FilePath>http://c</FilePath><Size>+12</Size></File>
<File><FileName>d.esd</FileName><Architecture>x64</Architecture><FilePath>http://d</FilePath><Size>big</Size></File>
</Files></PublishedMedia></Catalog></Catalogs></MCT>"#;

#[test]
fn catalog_files_are_read() {
    let files = parse_catalog(CATALOG).unwrap();
    assert_eq!(files.len(), 3);
    let f = &files[0];
    assert_eq!(f.language_code, "en-us");
    assert_eq!(f.language, "English (United States)");
    assert_eq!(f.editions, vec!["Professional", "Core", "Education"]);
    assert_eq!(f.architecture, "ARM64");
    assert_eq!(f.size, 4294967296);
    assert_eq!(f.sha256, "ABCDEF");
    assert_eq!(f.url, "http://dl.example/a.esd");
    assert_eq!(files[1].filename, "c_CLIENTBUSINESS_VOL.esd");
    assert_eq!(files[1].size, 12);
    assert!(files[1].editions.is_empty());
    assert_eq!(files[1].language, "");
    assert_eq!(files[2].size, 0);
}

#[test]
fn malformed_catalog_is_an_error() {
    assert!(matches!(parse_catalog("<Files><File></Files>"), Err(CatalogError::Catalog(_))));
}

fn file(name: &str) -> EsdFile {
    EsdFile {
        filename: name.to_string(),
        language_code: String::new(),
        language: String::new(),
        editions: Vec::new(),
        architecture: "x64".to_string(),
        size: 0,
        sha256: String::new(),
        url: String::new(),
    }
}

#[test]
fn edition_labels() {
    assert_eq!(
        file("x_CLIENTBUSINESS_VOL_x64.esd").edition_label(),
        "Business Volume (Enterprise / EnterpriseN)"
    );
    assert_eq!(file("x_CLIENTCHINA_RET.esd").edition_label(), "China Retail");
    assert_eq!(
        file("x_CLIENTCONSUMER_RET.esd").edition_label(),
        "Consumer Retail (Pro / Home / Education / …)"
    );
}
