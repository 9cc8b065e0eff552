use ml_rust::{parse_images, parse_labels, read_images_and_labels, ClassificationExample, Image};

fn label_bytes(labels: &[u8]) -> Vec<u8> {
    let mut b = vec![0u8, 0, 8, 1];
    b.extend_from_slice(&(labels.len() as u32).to_be_bytes());
    b.extend_from_slice(labels);
    b
}

fn image_bytes(images: &[&[u8]], w: u32, h: u32) -> Vec<u8> {
    let mut b = vec![0u8, 0, 8, 3];
    b.extend_from_slice(&(images.len() as u32).to_be_bytes());
    b.extend_from_slice(&w.to_be_bytes());
    b.extend_from_slice(&h.to_be_bytes());
    for img in images {
        b.extend_from_slice(img);
    }
    b
}

#[test]
fn test_parse_labels() {
    let bytes = label_bytes(&[7, 3]);
    assert_eq!(parse_labels(&bytes), Ok(vec![7, 3]));
}

#[test]
fn test_parse_labels_bad_encoding() {
    let mut bytes = label_bytes(&[7]);
    bytes[2] = 9;
    assert!(parse_labels(&bytes).is_err());
}

#[test]
fn test_parse_labels_truncated() {
    let mut bytes = label_bytes(&[7, 3]);
    bytes.pop();
    assert!(parse_labels(&bytes).is_err());
}

#[test]
fn test_parse_images() {
    let bytes = image_bytes(&[&[1, 2, 3, 4], &[5, 6, 7, 8]], 2, 2);
    let images = parse_images(&bytes).unwrap();
    assert_eq!(images, vec![vec![1, 2, 3, 4], vec![5, 6, 7, 8]]);
}

#[test]
fn test_parse_images_bad_dimensions() {
    let mut bytes = image_bytes(&[&[1, 2, 3, 4]], 2, 2);
    bytes[3] = 1;
    assert!(parse_images(&bytes).is_err());
}

#[test]
fn test_read_images_and_labels() {
    let images = image_bytes(&[&[10, 20], &[30, 40]], 2, 1);
    let labels = label_bytes(&[4, 9]);
    let set = read_images_and_labels(&images, &labels).unwrap();
    assert_eq!(set.len(), 2);
    assert_eq!(set[0].pixels, vec![10, 20]);
    assert_eq!(set[0].label, 4);
    assert_eq!(set[1].pixels, vec![30, 40]);
    assert_eq!(set[1].label, 9);
}

#[test]
fn test_read_images_and_labels_count_mismatch() {
    let images = image_bytes(&[&[10, 20]], 2, 1);
    let labels = label_bytes(&[4, 9]);
    assert!(read_images_and_labels(&images, &labels).is_err());
}

#[test]
fn test_read_images_and_labels_bad_label() {
    let images = image_bytes(&[&[10, 20]], 2, 1);
    let labels = label_bytes(&[10]);
    assert!(read_images_and_labels(&images, &labels).is_err());
}

#[test]
fn test_image_input_scaling() {
    let img = Image { pixels: vec![0, 255, 51], label: 3 };
    let input = img.get_input();
    assert_eq!(input[0].raw(), 0);
    assert_eq!(input[1].raw(), 1_000_000);
    assert_eq!(input[2].raw(), 200_000);
    assert_eq!(img.get_category(), 3);
    assert_eq!(img.get_categories_count(), 10);
}

#[test]
fn test_image_hash_is_stable() {
    let a = Image { pixels: vec![1, 2, 3], label: 4 };
    let b = Image { pixels: vec![1, 2, 3], label: 4 };
    let c = Image { pixels: vec![1, 2, 4], label: 4 };
    assert_eq!(a.calculate_hash(), b.calculate_hash());
    assert_ne!(a.calculate_hash(), c.calculate_hash());
}
