use snarkos_network::errors::{PrivateKeyError, ViewKeyError, AddressError, SignatureError};

fn io_error() -> std::io::Error {
    std::io::Error::new(std::io::ErrorKind::Other, "broken pipe while reading a key")
}

#[test]
fn private_key_error_labels_std_io() {
    let PrivateKeyError::Crate(label, text) = PrivateKeyError::from(io_error());
    assert_eq!(label, "std::io");
    assert!(!text.is_empty());
}

#[test]
fn view_key_error_labels_std_io() {
    let ViewKeyError::Crate(label, _) = ViewKeyError::from(io_error());
    assert_eq!(label, "std::io");
}

#[test]
fn address_error_labels_std_io() {
    let AddressError::Crate(label, _) = AddressError::from(io_error());
    assert_eq!(label, "std::io");
}

#[test]
fn signature_error_labels_each_origin() {
    let SignatureError::Crate(label, _) = SignatureError::from(io_error());
    assert_eq!(label, "std::io");
    let odd = hex::decode("abc").expect_err("odd length must fail");
    let SignatureError::Crate(label2, text2) = SignatureError::from(odd);
    assert_eq!(label2, "hex");
    assert_eq!(text2, "OddLength");
}
