use mongo_file_center::{FileCenter, FileData};

const IMAGE_BIG_SIZE: u64 = 1312391;
const IMAGE_SMALL_SIZE: u64 = 11658;

fn sample(len: usize, seed: u32) -> Vec<u8> {
    let mut x = seed.wrapping_mul(2654435761).wrapping_add(12345);
    (0..len)
        .map(|_| {
            x = x.wrapping_mul(1103515245).wrapping_add(12345);
            (x >> 16) as u8
        })
        .collect()
}

#[test]
fn upload_download_data() {
    let mut file_center = FileCenter::new();

    let image_small = sample(IMAGE_SMALL_SIZE as usize, 1);
    let image_big = sample(IMAGE_BIG_SIZE as usize, 2);

    for (temporarily, entry) in [true, false]
        .into_iter()
        .flat_map(|t| [0usize, 1, 2].into_iter().map(move |e| (t, e)))
    {
        let put = |c: &mut FileCenter, content: &[u8]| {
            let reads: Vec<Vec<u8>> = content.chunks(5000).map(|p| p.to_vec()).collect();
            match (temporarily, entry) {
                (true, 0) => c.put_file_by_path_bytes_temporarily("/tmp/f", content, None, None).unwrap(),
                (true, 1) => c.put_file_by_buffer_temporarily(content, "", None).unwrap(),
                (true, _) => c.put_file_by_reader_temporarily(&reads, "", None).unwrap(),
                (false, 0) => c.put_file_by_path_bytes("/tmp/f", content, None, None).unwrap(),
                (false, 1) => c.put_file_by_buffer(content, "", None).unwrap(),
                (false, _) => c.put_file_by_reader(&reads, "", None).unwrap(),
            }
        };

        {
            let file_id = put(&mut file_center, &image_small);

            let file_item = file_center.get_file_item_by_id(&file_id).unwrap().unwrap();

            assert_eq!(IMAGE_SMALL_SIZE, file_item.get_file_size());

            match file_item.into_file_data() {
                FileData::Buffer(b) => {
                    assert_eq!(image_small, b);
                }
                FileData::Stream(_) => panic!("should be a buffer"),
            }
        }

        {
            let file_id = put(&mut file_center, &image_big);

            let file_item = file_center.get_file_item_by_id(&file_id).unwrap().unwrap();

            assert_eq!(IMAGE_BIG_SIZE, file_item.get_file_size());

            match file_item.into_file_data() {
                FileData::Buffer(_) => panic!("should be a stream"),
                FileData::Stream(s) => {
                    assert_eq!(s.into_vec(), image_big);
                }
            }
        }
    }
}

#[test]
fn round_trip_at_boundary_sizes() {
    let t = 100usize;
    let mut file_center = FileCenter::new_with_file_size_threshold(t as u32).unwrap();
    for (k, size) in [0, t - 1, t, t + 1, 10 * t + 137].into_iter().enumerate() {
        let content = sample(size, 20 + k as u32);
        let id = file_center.put_file_by_buffer(&content, "f", None).unwrap();
        let item = file_center.get_file_item_by_id(&id).unwrap().unwrap();
        assert_eq!(item.get_file_size(), size as u64);
        assert_eq!(item.get_file_name(), "f");
        assert_eq!(item.get_file_id(), id);
        let is_stream = matches!(item.file_data, FileData::Stream(_));
        assert_eq!(is_stream, size > t);
        assert_eq!(item.into_file_data().into_vec(), content);
    }
}
