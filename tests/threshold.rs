use mongo_file_center::{FileCenter, FileData};

const IMAGE_SMALL_SIZE: u64 = 11658;

fn sample(len: usize, seed: u32) -> Vec<u8> {
    let mut x = seed.wrapping_mul(2654435761).wrapping_add(12345);
    (0..len)
        .map(|_| {
            x = x.wrapping_mul(1103515245).wrapping_add(12345);
            (x >> 16) as u8
        })
        .collect()
}


fn reads_of(content: &[u8]) -> Vec<Vec<u8>> {
    content.chunks(1000).map(|c| c.to_vec()).collect()
}

fn all_puts(file_center: &mut FileCenter, content: &[u8], stream: bool) {
    let ids = [
        file_center.put_file_by_path_bytes_temporarily("/tmp/image-small.png", content, None, None).unwrap(),
        file_center.put_file_by_reader_temporarily(&reads_of(content), "", None).unwrap(),
    ];
    for file_id in ids {
        let file_item = file_center.get_file_item_by_id(&file_id).unwrap().unwrap();
        assert_eq!(matches!(file_item.into_file_data(), FileData::Stream(_)), stream);
    }
    let permanent = [
        file_center.put_file_by_path_bytes("/tmp/image-small.png", content, None, None).unwrap(),
        file_center.put_file_by_reader(&reads_of(content), "", None).unwrap(),
    ];
    for file_id in permanent {
        let file_item = file_center.get_file_item_by_id(&file_id).unwrap().unwrap();
        assert_eq!(matches!(file_item.into_file_data(), FileData::Stream(_)), stream);
        file_center.delete_file_item_by_id(&file_id).unwrap();
    }
}

#[test]
fn threshold() {
    let mut file_center = FileCenter::new();

    let image_small = sample(IMAGE_SMALL_SIZE as usize, 1);

    file_center.set_file_size_threshold(IMAGE_SMALL_SIZE as u32).unwrap();
    assert_eq!(IMAGE_SMALL_SIZE as u32, file_center.get_file_size_threshold());

    {
        let file_id = file_center.put_file_by_buffer_temporarily(&image_small, "", None).unwrap();

        let file_item = file_center.get_file_item_by_id(&file_id).unwrap().unwrap();

        assert!(matches!(file_item.into_file_data(), FileData::Buffer(_)));
    }

    {
        let file_id = file_center.put_file_by_buffer(&image_small, "", None).unwrap();

        let file_item = file_center.get_file_item_by_id(&file_id).unwrap().unwrap();

        assert!(matches!(file_item.into_file_data(), FileData::Buffer(_)));
        file_center.delete_file_item_by_id(&file_id).unwrap();
    }

    all_puts(&mut file_center, &image_small, false);

    let new_threshold = (IMAGE_SMALL_SIZE - 1) as u32;
    file_center.set_file_size_threshold(new_threshold).unwrap();
    assert_eq!(new_threshold, file_center.get_file_size_threshold());

    {
        let file_id = file_center.put_file_by_buffer_temporarily(&image_small, "", None).unwrap();

        let file_item = file_center.get_file_item_by_id(&file_id).unwrap().unwrap();

        assert!(matches!(file_item.into_file_data(), FileData::Stream(_)));
    }

    {
        let file_id = file_center.put_file_by_buffer(&image_small, "", None).unwrap();

        let file_item = file_center.get_file_item_by_id(&file_id).unwrap().unwrap();

        assert!(matches!(file_item.into_file_data(), FileData::Stream(_)));
        file_center.delete_file_item_by_id(&file_id).unwrap();
    }

    all_puts(&mut file_center, &image_small, true);
}

#[test]
fn threshold_boundary_is_strictly_greater() {
    let t = 64u32;
    let mut file_center = FileCenter::new_with_file_size_threshold(t).unwrap();
    let at = file_center.put_file_by_buffer(&sample(t as usize, 2), "", None).unwrap();
    let above = file_center.put_file_by_buffer(&sample(t as usize + 1, 3), "", None).unwrap();
    let item = file_center.get_file_item_by_id(&at).unwrap().unwrap();
    assert!(matches!(item.into_file_data(), FileData::Buffer(_)));
    let item = file_center.get_file_item_by_id(&above).unwrap().unwrap();
    match item.into_file_data() {
        FileData::Stream(mut s) => {
            assert_eq!(s.next_chunk().unwrap().len(), t as usize);
            assert_eq!(s.next_chunk().unwrap().len(), 1);
            assert!(s.next_chunk().is_none());
            assert!(s.next_chunk().is_none());
        }
        FileData::Buffer(_) => panic!("should be a stream"),
    }
    assert!(!mongo_file_center::is_stream_size(t as u64, t));
    assert!(mongo_file_center::is_stream_size(t as u64 + 1, t));
}
