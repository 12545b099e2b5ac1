use mongo_file_center::{FileCenter, FileData, DEFAULT_FILE_SIZE_THRESHOLD};

const IMAGE_BIG_SIZE: usize = 1312391;
const IMAGE_SMALL_SIZE: usize = 11658;

fn sample(len: usize, seed: u32) -> Vec<u8> {
    let mut x = seed.wrapping_mul(2654435761).wrapping_add(12345);
    (0..len)
        .map(|_| {
            x = x.wrapping_mul(1103515245).wrapping_add(12345);
            (x >> 16) as u8
        })
        .collect()
}

fn reads_of(content: &[u8]) -> Vec<Vec<u8>> {
    content.chunks(4096).map(|c| c.to_vec()).collect()
}

#[derive(Clone, Copy)]
enum Entry {
    Path,
    Buffer,
    Reader,
}

fn put(file_center: &mut FileCenter, content: &[u8], entry: Entry) -> mongo_file_center::FileId {
    match entry {
        Entry::Path => file_center.put_file_by_path_bytes("/tmp/image", content, None, None).unwrap(),
        Entry::Buffer => file_center.put_file_by_buffer(content, "", None).unwrap(),
        Entry::Reader => file_center.put_file_by_reader(&reads_of(content), "", None).unwrap(),
    }
}

fn check_dedup(file_center: &mut FileCenter, content: &[u8], entry: Entry, temporarily_first: bool) {
    if temporarily_first {
        file_center.put_file_by_buffer_temporarily(content, "", None).unwrap();
    }
    let file_id_1 = put(file_center, content, entry);

    assert!(file_center.check_file_item_exist(&file_id_1).unwrap());
    assert!(file_center.check_file_item_exist(&file_id_1).unwrap());

    let file_id_2 = put(file_center, content, entry);

    assert_eq!(file_id_1, file_id_2);

    assert!(file_center.delete_file_item_by_id(&file_id_1).unwrap().is_some());
    assert!(file_center.delete_file_item_by_id(&file_id_1).unwrap().is_some());
    assert!(file_center.delete_file_item_by_id(&file_id_1).unwrap().is_none());
}

#[test]
fn duplication_deletion() {
    let mut file_center = FileCenter::new();

    let image_small = sample(IMAGE_SMALL_SIZE, 1);
    let image_big = sample(IMAGE_BIG_SIZE, 2);

    for entry in [Entry::Path, Entry::Buffer, Entry::Reader] {
        check_dedup(&mut file_center, &image_small, entry, false);
        check_dedup(&mut file_center, &image_big, entry, false);
        check_dedup(&mut file_center, &image_small, entry, true);
        check_dedup(&mut file_center, &image_big, entry, true);
    }

    file_center.drop_file_center();
}

#[test]
fn duplication_different_threshold() {
    let mut file_center = FileCenter::new();

    let image_small = sample(IMAGE_SMALL_SIZE, 1);

    {
        let file_id_1 = file_center.put_file_by_buffer(&image_small, "", None).unwrap();

        file_center.set_file_size_threshold(1024).unwrap();

        let file_id_2 = file_center.put_file_by_buffer(&image_small, "", None).unwrap();

        assert_eq!(file_id_1, file_id_2);

        let file_item = file_center.get_file_item_by_id(&file_id_1).unwrap().unwrap();

        assert!(matches!(file_item.into_file_data(), FileData::Buffer(_)));
    }

    for (k, entry) in [Entry::Path, Entry::Reader].into_iter().enumerate() {
        file_center.set_file_size_threshold(DEFAULT_FILE_SIZE_THRESHOLD).unwrap();
        let content = sample(IMAGE_SMALL_SIZE, 30 + k as u32);

        let file_id_1 = put(&mut file_center, &content, entry);

        file_center.set_file_size_threshold(1024).unwrap();

        let file_id_2 = put(&mut file_center, &content, entry);

        assert_eq!(file_id_1, file_id_2);

        let file_item = file_center.get_file_item_by_id(&file_id_1).unwrap().unwrap();

        assert!(matches!(file_item.into_file_data(), FileData::Buffer(_)));
    }

    file_center.set_file_size_threshold(DEFAULT_FILE_SIZE_THRESHOLD).unwrap();

    {
        let image_other = sample(IMAGE_SMALL_SIZE, 3);
        let file_id_1 = file_center.put_file_by_buffer(&image_other, "", None).unwrap();

        file_center.set_file_size_threshold(1024).unwrap();

        let file_id_2 = file_center.put_file_by_buffer(&image_other, "", None).unwrap();

        assert_eq!(file_id_1, file_id_2);

        let file_item = file_center.get_file_item_by_id(&file_id_1).unwrap().unwrap();

        assert!(matches!(file_item.into_file_data(), FileData::Buffer(_)));
    }
}

#[test]
fn dedup_n_puts_need_n_deletes() {
    let mut file_center = FileCenter::new_with_file_size_threshold(100).unwrap();
    for content in [sample(50, 9), sample(1037, 10)] {
        let n = 5;
        let first = file_center.put_file_by_buffer(&content, "a", None).unwrap();
        for _ in 1..n {
            assert_eq!(file_center.put_file_by_buffer(&content, "b", Some("text/plain")).unwrap(), first);
        }
        for _ in 0..n {
            assert_eq!(file_center.delete_file_item_by_id(&first).unwrap(), Some(content.len() as u64));
        }
        assert_eq!(file_center.delete_file_item_by_id(&first).unwrap(), None);
        assert!(file_center.get_file_item_by_id(&first).unwrap().is_none());
        assert!(!file_center.check_file_item_exist(&first).unwrap());
    }
}

#[test]
fn dedup_keeps_first_name_and_mime() {
    let mut file_center = FileCenter::new();
    let content = sample(10, 4);
    let id = file_center.put_file_by_buffer(&content, "first.txt", Some("text/plain")).unwrap();
    let again = file_center.put_file_by_buffer(&content, "second.bin", None).unwrap();
    assert_eq!(id, again);
    let item = file_center.get_file_item_by_id(&id).unwrap().unwrap();
    assert_eq!(item.get_file_name(), "first.txt");
    assert_eq!(item.get_mime_type(), "text/plain");
    assert_eq!(item.get_expiration_time(), None);
}

#[test]
fn default_mime_type_is_octet_stream() {
    let mut file_center = FileCenter::new();
    let id = file_center.put_file_by_buffer(&sample(3, 5), "x", None).unwrap();
    let item = file_center.get_file_item_by_id(&id).unwrap().unwrap();
    assert_eq!(item.get_mime_type(), "application/octet-stream");
}
