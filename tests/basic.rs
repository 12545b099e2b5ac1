use mongo_file_center::{FileCenter, FileData, FileId, MAX_FILE_SIZE_THRESHOLD};

#[test]
fn basic_initialize() {
    let mut file_center = FileCenter::new();
    assert_eq!(file_center.get_file_size_threshold(), mongo_file_center::DEFAULT_FILE_SIZE_THRESHOLD);
    file_center.drop_file_center();
}

#[test]
fn basic_crypt() {
    let file_center = FileCenter::new();

    let oid = FileId::from_bytes(bson::oid::ObjectId::new().bytes());

    let id_token = file_center.encrypt_id(&oid);

    let id_token_2 = String::new();

    let id_token_2 = file_center.encrypt_id_to_buffer(&oid, id_token_2);

    assert_eq!(id_token, id_token_2);

    let r_oid = file_center.decrypt_id_token(&id_token).unwrap();

    assert_eq!(oid, r_oid);
}

#[test]
fn max_file_size_threshold() {
    let mut file_center = FileCenter::new();

    file_center.set_file_size_threshold(MAX_FILE_SIZE_THRESHOLD).unwrap();

    let file_id = file_center
        .put_file_by_buffer(
            &vec![0; MAX_FILE_SIZE_THRESHOLD as usize],
            "ABCDEFGHIJKLMNOPQRSTUVWXYZabcdefghijklmnopqrstuvwxyz0123456789",
            None,
        )
        .unwrap();

    let file_item = file_center.get_file_item_by_id(&file_id).unwrap().unwrap();

    assert!(matches!(file_item.into_file_data(), FileData::Buffer(_)));
}

#[test]
fn crypt_rejects_malformed_token() {
    let file_center = FileCenter::new();
    assert!(file_center.decrypt_id_token("").is_err());
    assert!(file_center.decrypt_id_token("not a token at all!").is_err());
}

#[test]
fn crypt_token_of_wrong_length_is_rejected() {
    let file_center = FileCenter::new();
    let other = FileCenter::new();
    let token = other.encrypt_id(&FileId::from_bytes([7u8; 12]));
    // a token made under another key may decode to garbage, but never to a
    // file ID of the wrong length
    if let Ok(id) = file_center.decrypt_id_token(&token) {
        assert_eq!(id.bytes().len(), 12);
    }
}

#[test]
fn threshold_out_of_bounds_is_rejected() {
    let mut file_center = FileCenter::new();
    assert!(matches!(
        file_center.set_file_size_threshold(0),
        Err(mongo_file_center::FileCenterError::FileSizeThresholdError)
    ));
    assert!(matches!(
        file_center.set_file_size_threshold(MAX_FILE_SIZE_THRESHOLD + 1),
        Err(mongo_file_center::FileCenterError::FileSizeThresholdError)
    ));
    assert_eq!(file_center.get_file_size_threshold(), mongo_file_center::DEFAULT_FILE_SIZE_THRESHOLD);
    assert!(FileCenter::new_with_file_size_threshold(0).is_err());
    assert!(FileCenter::new_with_file_size_threshold(MAX_FILE_SIZE_THRESHOLD + 1).is_err());
    let c = FileCenter::new_with_file_size_threshold(MAX_FILE_SIZE_THRESHOLD).unwrap();
    assert_eq!(c.get_file_size_threshold(), MAX_FILE_SIZE_THRESHOLD);
}

#[test]
fn token_key_and_length_check() {
    let cipher = mongo_file_center::IdCipher::new(5);
    let same_key = short_crypt::ShortCrypt::new("FileCenter-5");
    let id = FileId::from_bytes([9; 12]);
    let token = cipher.encrypt_id(&id);
    assert_eq!(token, same_key.encrypt_to_url_component(&[9u8; 12]));
    assert_eq!(cipher.decrypt_id_token(&token).unwrap(), id);
    assert_eq!(cipher.encrypt_id_to_buffer(&id, "prefix/".to_string()), format!("prefix/{}", token));

    let short = same_key.encrypt_to_url_component(&[1u8; 11]);
    assert!(matches!(
        cipher.decrypt_id_token(&short),
        Err(mongo_file_center::FileCenterError::IDTokenError("ID needs to be 12 bytes"))
    ));
    assert!(matches!(
        cipher.decrypt_id_token("%%%"),
        Err(mongo_file_center::FileCenterError::IDTokenError(_))
    ));
}
