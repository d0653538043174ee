use nextsyncengine::filesystem::File;
use nextsyncengine::partition::split_vec_to_vecs;

fn files(n: usize) -> Vec<File> {
    let mut v = Vec::new();
    for i in 0..n {
        v.push(File::new(format!("/tmp/f{}", i), i as i64, 1));
    }
    v
}

fn names(part: &Vec<File>) -> Vec<String> {
    part.iter().map(|f| f.get_local_path().to_string()).collect()
}

#[test]
fn test_partition_sizes_ten_by_three() {
    let parts = split_vec_to_vecs(files(10), 3);
    assert_eq!(parts.len(), 3);
    let sizes: Vec<usize> = parts.iter().map(|p| p.len()).collect();
    assert_eq!(sizes, vec![4, 3, 3]);
}

#[test]
fn test_partition_concatenation_keeps_order() {
    let parts = split_vec_to_vecs(files(7), 2);
    assert_eq!(parts.len(), 2);
    let mut joined: Vec<String> = Vec::new();
    for p in &parts {
        joined.extend(names(p));
    }
    let expected: Vec<String> = (0..7).map(|i| format!("/tmp/f{}", i)).collect();
    assert_eq!(joined, expected);
}

#[test]
fn test_partition_sizes_differ_at_most_one_and_non_increasing() {
    for len in 0..12usize {
        for k in 1..7usize {
            let parts = split_vec_to_vecs(files(len), k);
            assert_eq!(parts.len(), k);
            for i in 1..k {
                assert!(parts[i - 1].len() >= parts[i].len());
                assert!(parts[i - 1].len() - parts[i].len() <= 1);
            }
            let total: usize = parts.iter().map(|p| p.len()).sum();
            assert_eq!(total, len);
        }
    }
}

#[test]
fn test_partition_more_workers_than_items() {
    let parts = split_vec_to_vecs(files(2), 5);
    assert_eq!(parts.len(), 5);
    let sizes: Vec<usize> = parts.iter().map(|p| p.len()).collect();
    assert_eq!(sizes, vec![1, 1, 0, 0, 0]);
}
