use mongo_file_center::FileCenter;

const IMAGE_BIG_SIZE: usize = 1312391;
const IMAGE_SMALL_SIZE: usize = 11658;

fn sample(len: usize, seed: u32) -> Vec<u8> {
    let mut x = seed.wrapping_mul(2654435761).wrapping_add(12345);
    (0..len)
        .map(|_| {
            x = x.wrapping_mul(1103515245).wrapping_add(12345);
            (x >> 16) as u8
        })
        .collect()
}

#[test]
fn garbage() {
    let mut file_center = FileCenter::new();

    let image_small = sample(IMAGE_SMALL_SIZE, 1);
    let image_big = sample(IMAGE_BIG_SIZE, 2);

    let file_id_1 = file_center.put_file_by_buffer(&image_small, "", None).unwrap();

    {
        let file_id_2 = file_center.put_file_by_buffer_temporarily(&image_big, "", None).unwrap();

        let file_id_3 = file_center.put_file_by_buffer(&image_big, "", None).unwrap();

        file_center.delete_chunks_by_file_id(&file_id_3);

        assert!(file_center.get_file_item_by_id(&file_id_3).unwrap().is_some());

        file_center.clear_garbage().unwrap();

        assert!(file_center.get_file_item_by_id(&file_id_1).unwrap().is_some());
        assert!(file_center.get_file_item_by_id(&file_id_2).unwrap().is_some());
        assert!(file_center.get_file_item_by_id(&file_id_3).unwrap().is_none());
        assert!(file_center.get_file_item_by_id(&file_id_2).unwrap().is_none());
    }

    {
        let file_id_2 = file_center.put_file_by_buffer_temporarily(&image_big, "", None).unwrap();

        let file_id_3 = file_center.put_file_by_buffer(&image_big, "", None).unwrap();

        let item = file_center.get_file_item_by_id(&file_id_3).unwrap().unwrap();
        assert_eq!(item.into_file_data().into_vec(), image_big);

        file_center.delete_record_by_id(&file_id_3);

        file_center.clear_garbage().unwrap();

        assert!(file_center.get_file_item_by_id(&file_id_1).unwrap().is_some());
        assert!(file_center.get_file_item_by_id(&file_id_2).unwrap().is_some());
        assert!(file_center.get_file_item_by_id(&file_id_3).unwrap().is_none());
        assert!(file_center.get_file_item_by_id(&file_id_2).unwrap().is_none());
    }
}

#[test]
fn garbage_exhausted_count_is_collected_with_chunks() {
    let mut file_center = FileCenter::new_with_file_size_threshold(16).unwrap();
    let keep_inline = file_center.put_file_by_buffer(&sample(8, 1), "", None).unwrap();
    let keep_chunked = file_center.put_file_by_buffer(&sample(100, 2), "", None).unwrap();
    let zeroed = file_center.put_file_by_buffer(&sample(100, 3), "", None).unwrap();
    file_center.set_count_by_id(&zeroed, 0);

    file_center.clear_garbage().unwrap();

    assert!(!file_center.check_file_item_exist(&zeroed).unwrap());
    assert!(file_center.check_file_item_exist(&keep_inline).unwrap());
    let item = file_center.get_file_item_by_id(&keep_chunked).unwrap().unwrap();
    assert_eq!(item.into_file_data().into_vec(), sample(100, 2));

    // running it again changes nothing
    file_center.clear_garbage().unwrap();
    assert!(file_center.check_file_item_exist(&keep_inline).unwrap());
    assert!(file_center.check_file_item_exist(&keep_chunked).unwrap());
}
