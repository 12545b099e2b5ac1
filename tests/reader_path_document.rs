use mongo_file_center::chunking::ChunkWriter;
use mongo_file_center::{
    create_file_item, file_exist_projection, file_item_delete_projection, file_item_projection,
    FieldValue, FileCenter, FileCenterError, FileData, FileId, StoredContent, StoredDocument,
    ValueAccessError,
};

fn sample(len: usize, seed: u32) -> Vec<u8> {
    let mut x = seed.wrapping_mul(2654435761).wrapping_add(12345);
    (0..len)
        .map(|_| {
            x = x.wrapping_mul(1103515245).wrapping_add(12345);
            (x >> 16) as u8
        })
        .collect()
}

fn as_reads(content: &[u8], sizes: &[usize]) -> Vec<Vec<u8>> {
    let mut reads = Vec::new();
    let mut pos = 0;
    let mut k = 0;
    while pos < content.len() {
        let n = sizes[k % sizes.len()].min(content.len() - pos);
        reads.push(content[pos..pos + n].to_vec());
        pos += n;
        k += 1;
    }
    reads
}

#[test]
fn dedup_across_buffer_reader_and_path() {
    let mut file_center = FileCenter::new_with_file_size_threshold(50).unwrap();
    for size in [10usize, 50, 51, 537] {
        let content = sample(size, size as u32);
        let a = file_center.put_file_by_buffer(&content, "a", None).unwrap();
        let b = file_center.put_file_by_reader(&as_reads(&content, &[7, 1, 30]), "b", None).unwrap();
        let c = file_center.put_file_by_path_bytes("/data/c.png", &content, None, None).unwrap();
        assert_eq!(a, b);
        assert_eq!(a, c);
        for _ in 0..2 {
            assert_eq!(file_center.delete_file_item_by_id(&a).unwrap(), Some(size as u64));
        }
        let item = file_center.get_file_item_by_id(&a).unwrap().unwrap();
        assert_eq!(matches!(item.file_data, FileData::Stream(_)), size > 50);
        assert_eq!(item.into_file_data().into_vec(), content);
        assert_eq!(file_center.delete_file_item_by_id(&a).unwrap(), Some(size as u64));
        assert_eq!(file_center.delete_file_item_by_id(&a).unwrap(), None);
    }
}

#[test]
fn reader_round_trip_and_boundary() {
    let t = 16usize;
    let mut file_center = FileCenter::new_with_file_size_threshold(t as u32).unwrap();
    for size in [0, t - 1, t, t + 1, 10 * t + 137] {
        let content = sample(size, 40 + size as u32);
        let id = file_center.put_file_by_reader(&as_reads(&content, &[3, 16, 1]), "r", None).unwrap();
        let item = file_center.get_file_item_by_id(&id).unwrap().unwrap();
        assert_eq!(item.get_file_size(), size as u64);
        assert_eq!(matches!(item.file_data, FileData::Stream(_)), size > t);
        assert_eq!(item.into_file_data().into_vec(), content);
    }
    let empty = file_center.put_file_by_reader(&Vec::new(), "e", None).unwrap();
    let again = file_center.put_file_by_buffer(&[], "e", None).unwrap();
    assert_eq!(empty, again);
}

#[test]
fn reader_temporarily_is_one_shot() {
    let mut file_center = FileCenter::new_with_file_size_threshold(8).unwrap();
    let content = sample(100, 5);
    let id = file_center.put_file_by_reader_temporarily(&as_reads(&content, &[9]), "", None).unwrap();
    let other = file_center.put_file_by_reader_temporarily(&as_reads(&content, &[9]), "", None).unwrap();
    assert_ne!(id, other);
    let item = file_center.get_file_item_by_id(&id).unwrap().unwrap();
    assert_eq!(item.into_file_data().into_vec(), content);
    assert!(file_center.get_file_item_by_id(&id).unwrap().is_none());
}

#[test]
fn path_names_and_mime_types() {
    let mut file_center = FileCenter::new();
    let id = file_center.put_file_by_path_bytes("/tmp/photos/cat.jpg", b"jpeg", None, None).unwrap();
    let item = file_center.get_file_item_by_id(&id).unwrap().unwrap();
    assert_eq!(item.get_file_name(), "cat.jpg");
    assert_eq!(item.get_mime_type(), "image/jpeg");

    let id = file_center
        .put_file_by_path_bytes_temporarily("/tmp/notes", b"text", Some("named"), Some("text/plain"))
        .unwrap();
    let item = file_center.get_file_item_by_id(&id).unwrap().unwrap();
    assert_eq!(item.get_file_name(), "named");
    assert_eq!(item.get_mime_type(), "text/plain");

    let id = file_center.put_file_by_path_bytes("/tmp/notes", b"other", None, None).unwrap();
    let item = file_center.get_file_item_by_id(&id).unwrap().unwrap();
    assert_eq!(item.get_file_name(), "notes");
    assert_eq!(item.get_mime_type(), "application/octet-stream");

    assert!(matches!(
        file_center.put_file_by_path_bytes("/", b"x", None, None),
        Err(FileCenterError::IOError(_))
    ));
}

#[test]
fn chunk_writer_streams_full_chunks() {
    let content = sample(23, 1);
    let mut writer = ChunkWriter::new(5);
    let mut out: Vec<Vec<u8>> = Vec::new();
    for piece in as_reads(&content, &[4, 7, 1]) {
        writer.push(&piece);
        for c in writer.take_ready() {
            assert_eq!(c.len(), 5);
            out.push(c);
        }
    }
    out.extend(writer.finish());
    assert_eq!(out.len(), 5);
    assert_eq!(out[4].len(), 3);
    assert_eq!(out.concat(), content);

    let writer = ChunkWriter::new(5);
    assert_eq!(writer.finish(), vec![Vec::<u8>::new()]);
}

fn document(file_data: Option<FieldValue>, chunk_id: Option<FieldValue>) -> StoredDocument {
    StoredDocument {
        id: Some(FieldValue::ObjectId(FileId::from_bytes([4; 12]))),
        create_time: Some(FieldValue::DateTime(1000)),
        expire_at: None,
        mime_type: Some(FieldValue::String("image/png".to_string())),
        file_size: Some(FieldValue::Int64(3)),
        file_name: Some(FieldValue::String("a.png".to_string())),
        file_data,
        chunk_id,
    }
}

#[test]
fn document_decoding() {
    let f = create_file_item(document(Some(FieldValue::Binary(vec![1, 2, 3])), None)).unwrap();
    assert_eq!(f.file_id, FileId::from_bytes([4; 12]));
    assert_eq!(f.create_time, 1000);
    assert_eq!(f.expire_at, None);
    assert_eq!(f.mime_type, "image/png");
    assert_eq!(f.file_size, 3);
    assert_eq!(f.file_name, "a.png");
    assert!(matches!(f.content, StoredContent::Inline(ref b) if *b == vec![1, 2, 3]));

    let f = create_file_item(document(None, Some(FieldValue::ObjectId(FileId::from_bytes([5; 12])))))
        .unwrap();
    assert!(matches!(f.content, StoredContent::Chunked));

    let mut d = document(None, None);
    d.expire_at = Some(FieldValue::DateTime(2000));
    assert!(matches!(
        create_file_item(d),
        Err(FileCenterError::DocumentError(ValueAccessError::NotPresent))
    ));

    let mut d = document(Some(FieldValue::Binary(vec![])), None);
    d.expire_at = Some(FieldValue::DateTime(2000));
    assert_eq!(create_file_item(d).unwrap().expire_at, Some(2000));

    let mut d = document(Some(FieldValue::Binary(vec![])), None);
    d.id = None;
    assert!(matches!(
        create_file_item(d),
        Err(FileCenterError::DocumentError(ValueAccessError::NotPresent))
    ));

    let mut d = document(Some(FieldValue::Binary(vec![])), None);
    d.create_time = Some(FieldValue::Int64(5));
    assert!(matches!(
        create_file_item(d),
        Err(FileCenterError::DocumentError(ValueAccessError::UnexpectedType))
    ));

    let mut d = document(Some(FieldValue::Binary(vec![])), None);
    d.mime_type = Some(FieldValue::String("not a mime".to_string()));
    assert!(matches!(
        create_file_item(d),
        Err(FileCenterError::DocumentError(ValueAccessError::UnexpectedType))
    ));

    let mut d = document(Some(FieldValue::Binary(vec![])), None);
    d.file_size = Some(FieldValue::Int32(3));
    assert!(matches!(
        create_file_item(d),
        Err(FileCenterError::DocumentError(ValueAccessError::UnexpectedType))
    ));

    let d = document(Some(FieldValue::Other), None);
    assert!(matches!(
        create_file_item(d),
        Err(FileCenterError::DocumentError(ValueAccessError::UnexpectedType))
    ));
}

#[test]
fn projections() {
    assert_eq!(
        file_item_projection(),
        vec![
            ("_id", 1),
            ("create_time", 1),
            ("mime_type", 1),
            ("file_size", 1),
            ("file_name", 1),
            ("file_data", 1),
            ("chunk_id", 1),
            ("expire_at", 1)
        ]
    );
    assert_eq!(file_exist_projection(), vec![("_id", 1)]);
    assert_eq!(
        file_item_delete_projection(),
        vec![("_id", 0), ("count", 1), ("chunk_id", 1), ("file_size", 1)]
    );
}
