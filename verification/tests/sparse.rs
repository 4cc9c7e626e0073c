use hercules::sparse::{csc_to_csr, csr_is_wf, csr_to_csc, CsrMatrix};

fn bits(vals: &[f64]) -> Vec<u64> {
    vals.iter().map(|v| v.to_bits()).collect()
}

/// Row-compressed form of the 3x3 matrix
/// [ 1.5  0   -2.0 ]
/// [ 0    3.0  0   ]
/// [ 0.5  0    4.0 ]
fn sample() -> CsrMatrix {
    CsrMatrix {
        nrows: 3,
        ncols: 3,
        row_ptr: vec![0, 2, 3, 5],
        col_idx: vec![0, 2, 1, 0, 2],
        values: bits(&[1.5, -2.0, 3.0, 0.5, 4.0]),
    }
}

#[test]
fn conversion_matches_expected_column_layout() {
    let m = sample();
    assert!(csr_is_wf(&m));
    let csc = csr_to_csc(&m);
    assert_eq!(csc.nrows, 3);
    assert_eq!(csc.ncols, 3);
    assert_eq!(csc.col_ptr, vec![0, 2, 3, 5]);
    assert_eq!(csc.row_idx, vec![0, 2, 1, 0, 2]);
    assert_eq!(csc.values, bits(&[1.5, 0.5, 3.0, -2.0, 4.0]));
}

#[test]
fn round_trip_preserves_every_entry() {
    let m = sample();
    let csc = csr_to_csc(&m);
    // read the converted form back into dense and compare with the input
    let mut dense = [[0.0f64; 3]; 3];
    for c in 0..3 {
        for k in csc.col_ptr[c]..csc.col_ptr[c + 1] {
            dense[csc.row_idx[k]][c] = f64::from_bits(csc.values[k]);
        }
    }
    let mut expect = [[0.0f64; 3]; 3];
    for r in 0..3 {
        for k in m.row_ptr[r]..m.row_ptr[r + 1] {
            expect[r][m.col_idx[k]] = f64::from_bits(m.values[k]);
        }
    }
    assert_eq!(dense, expect);
    assert_eq!(csc.values.len(), m.values.len());
    // reading the converted form back row-compressed restores the input
    let back = csc_to_csr(&csc);
    assert_eq!(back.nrows, m.nrows);
    assert_eq!(back.ncols, m.ncols);
    assert_eq!(back.row_ptr, m.row_ptr);
    assert_eq!(back.col_idx, m.col_idx);
    assert_eq!(back.values, m.values);
}

#[test]
fn conversion_matches_outside_converter() {
    let m = CsrMatrix {
        nrows: 4,
        ncols: 3,
        row_ptr: vec![0, 1, 3, 3, 5],
        col_idx: vec![1, 0, 2, 1, 2],
        values: bits(&[7.0, -1.25, 2.5, 0.125, 9.0]),
    };
    assert!(csr_is_wf(&m));
    let csc = csr_to_csc(&m);
    let outside = sprs::CsMat::new(
        (4, 3),
        m.row_ptr.clone(),
        m.col_idx.clone(),
        m.values.iter().map(|&b| f64::from_bits(b)).collect::<Vec<f64>>(),
    );
    let (col_ptr, row_idx, data) = outside.to_csc().into_raw_storage();
    assert_eq!(csc.col_ptr, col_ptr);
    assert_eq!(csc.row_idx, row_idx);
    let ours: Vec<f64> = csc.values.iter().map(|&b| f64::from_bits(b)).collect();
    assert_eq!(ours, data);
}

#[test]
fn empty_and_single_entry_matrices_convert() {
    let empty = CsrMatrix { nrows: 0, ncols: 0, row_ptr: vec![0], col_idx: vec![], values: vec![] };
    assert!(csr_is_wf(&empty));
    let csc = csr_to_csc(&empty);
    assert_eq!(csc.col_ptr, vec![0]);
    assert_eq!(csc.row_idx.len(), 0);

    let one = CsrMatrix {
        nrows: 2,
        ncols: 2,
        row_ptr: vec![0, 0, 1],
        col_idx: vec![0],
        values: bits(&[6.5]),
    };
    assert!(csr_is_wf(&one));
    let csc1 = csr_to_csc(&one);
    assert_eq!(csc1.col_ptr, vec![0, 1, 1]);
    assert_eq!(csc1.row_idx, vec![1]);
    assert_eq!(csc1.values, bits(&[6.5]));
}

#[test]
fn malformed_storage_is_rejected() {
    let bad_ptr = CsrMatrix {
        nrows: 2,
        ncols: 2,
        row_ptr: vec![0, 2, 1],
        col_idx: vec![0, 1],
        values: bits(&[1.0, 2.0]),
    };
    assert!(!csr_is_wf(&bad_ptr));
    let unsorted = CsrMatrix {
        nrows: 1,
        ncols: 3,
        row_ptr: vec![0, 2],
        col_idx: vec![2, 0],
        values: bits(&[1.0, 2.0]),
    };
    assert!(!csr_is_wf(&unsorted));
    let column_out_of_range = CsrMatrix {
        nrows: 1,
        ncols: 1,
        row_ptr: vec![0, 1],
        col_idx: vec![1],
        values: bits(&[1.0]),
    };
    assert!(!csr_is_wf(&column_out_of_range));
    let length_mismatch = CsrMatrix {
        nrows: 1,
        ncols: 2,
        row_ptr: vec![0, 1],
        col_idx: vec![0],
        values: vec![],
    };
    assert!(!csr_is_wf(&length_mismatch));
}
