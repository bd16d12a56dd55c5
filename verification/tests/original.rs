use driver_indexer::cli::isValidPathIncludeWildcard;
use driver_indexer::i18n::en_US::{Language, Language_zh_CN};

// 多国语言支持
#[test]
fn Language() {
    assert_eq!(Language_zh_CN::info(), "Info");
    assert_eq!(Language_zh_CN::success(), "Success");
    assert_eq!(Language_zh_CN::warning(), "Warning");
    assert_eq!(Language_zh_CN::error(), "Error");
}

#[test]
fn wildcard2() {
    let path = std::path::PathBuf::from(r"C:\Users\Administrator.W10-20201229857\Desktop\Network\aaa.zip");
    let fileName = "aaa.zip";
    let result = isValidPathIncludeWildcard(fileName, path.exists(), path.parent().map(|p| p.exists()).unwrap_or(false));
    println!("{:?}", result);
    // no wildcard in the name: accepted exactly when the path exists
    assert_eq!(result.is_ok(), path.exists());
}
