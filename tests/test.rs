use mongo_file_center::{FileCenter, FileId};

fn sample(len: usize, seed: u32) -> Vec<u8> {
    let mut x = seed.wrapping_mul(2654435761).wrapping_add(12345);
    (0..len)
        .map(|_| {
            x = x.wrapping_mul(1103515245).wrapping_add(12345);
            (x >> 16) as u8
        })
        .collect()
}

#[test]
fn test_initialize() {
    {
        FileCenter::new();
    }
    {
        let mut file_center = FileCenter::new();
        file_center.drop_file_center();
        assert_eq!(file_center.count_chunks(), 0);
    }
}

#[test]
fn test_crypt() {
    let file_center = FileCenter::new();

    let oid = FileId::from_bytes(bson::oid::ObjectId::new().bytes());

    let id_token = file_center.encrypt_id(&oid);

    let id_token_2 = String::new();

    let id_token_2 = file_center.encrypt_id_to_buffer(&oid, id_token_2);

    assert_eq!(id_token, id_token_2);

    let r_oid = file_center.decrypt_id_token(&id_token).unwrap();

    assert_eq!(oid, r_oid);

    let prefixed = file_center.encrypt_id_to_buffer(&oid, "https://example.com/".to_string());
    assert!(prefixed.starts_with("https://example.com/"));
}

#[test]
fn clear_garbage() {
    let mut file_center = FileCenter::new_with_file_size_threshold(1024).unwrap();
    let image = sample(10 * 1024 + 137, 11);

    // records whose chunks are all missing
    {
        let object_id = file_center.put_file_by_path_bytes("image.jpg", &image, None, None).unwrap();
        file_center.clear_garbage().unwrap();
        assert!(file_center.check_file_item_exist(&object_id).unwrap());
        file_center.delete_chunks_by_file_id(&object_id);
        file_center.clear_garbage().unwrap();
        assert!(!file_center.check_file_item_exist(&object_id).unwrap());
    }

    // records whose count is zero or less
    {
        let object_id = file_center.put_file_by_path_bytes("image.jpg", &image, None, None).unwrap();
        file_center.clear_garbage().unwrap();
        assert!(file_center.check_file_item_exist(&object_id).unwrap());
        file_center.set_count_by_id(&object_id, 0);
        file_center.clear_garbage().unwrap();
        assert!(!file_center.check_file_item_exist(&object_id).unwrap());
        assert_eq!(0, file_center.count_chunks());
    }

    // chunks that no record uses
    {
        let object_id = file_center.put_file_by_path_bytes("image.jpg", &image, None, None).unwrap();
        file_center.clear_garbage().unwrap();
        assert_eq!(11, file_center.count_chunks_of(&object_id));
        file_center.delete_record_by_id(&object_id);
        file_center.clear_garbage().unwrap();
        assert_eq!(0, file_center.count_chunks());
    }
}

#[test]
fn path_without_name_joins_stored_content() {
    let mut file_center = FileCenter::new();
    let content = sample(40, 3);
    assert!(matches!(
        file_center.put_file_by_path_bytes("/", &content, None, None),
        Err(mongo_file_center::FileCenterError::IOError(_))
    ));
    let id = file_center.put_file_by_buffer(&content, "stored", None).unwrap();
    assert_eq!(file_center.put_file_by_path_bytes("/", &content, None, None).unwrap(), id);
    assert_eq!(file_center.delete_file_item_by_id(&id).unwrap(), Some(40));
    assert_eq!(file_center.delete_file_item_by_id(&id).unwrap(), Some(40));
    assert_eq!(file_center.delete_file_item_by_id(&id).unwrap(), None);
}

#[test]
fn engine_ids_do_not_repeat() {
    let mut file_center = FileCenter::new();
    let a = file_center.put_file_by_buffer_temporarily(b"x", "", None).unwrap();
    let b = file_center.put_file_by_buffer_temporarily(b"x", "", None).unwrap();
    assert_ne!(a, b);
    let p = FileId::from_parts(0x01020304, 0x05060708090a0b0c);
    assert_eq!(p.bytes(), [1, 2, 3, 4, 5, 6, 7, 8, 9, 10, 11, 12]);
}
