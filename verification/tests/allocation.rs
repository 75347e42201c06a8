use snap_rs::allocation::{
    largest_offset, same_numbers, times_of_offset, Allocation, ElementData, Frame,
    RawAllocationData,
};
use snap_rs::load::{
    document_kind, load_allocations, raw_snap_from_documents, DocumentKind, LoadError, SnapType,
};

fn frame(name: &str) -> Frame {
    Frame { name: name.to_string(), filename: "model.py".to_string(), line: 3 }
}

fn raw(timesteps: Vec<u64>, offsets: Vec<u64>, size: u64) -> RawAllocationData {
    RawAllocationData { timesteps, offsets, size }
}

fn stack(names: &[&str]) -> ElementData {
    ElementData { frames: names.iter().map(|n| frame(n)).collect() }
}

#[test]
fn load_test_basic() {
    let raws = vec![raw(vec![0, 10], vec![0, 0], 100), raw(vec![5, 15], vec![64, 32], 50)];
    let elements = vec![stack(&["a", "b"]), stack(&[])];
    match load_allocations(raws, elements) {
        Ok(allocations) => {
            if allocations.is_empty() {
                println!("No allocations were loaded.");
            } else {
                println!("Successfully loaded {} allocations:", allocations.len());
                if let Some(first_alloc) = allocations.first() {
                    println!("{:#?}", first_alloc);
                }
            }
            assert_eq!(allocations.len(), 2);
        }
        Err(e) => {
            panic!("Error loading allocations: {}", e.message());
        }
    }
}

#[test]
fn records_carry_their_peak() {
    let raws = vec![
        raw(vec![1, 2, 3, 4], vec![7, 9, 9, 0], 5),
        raw(vec![8], vec![0], 0),
        raw(vec![3, 3, 3], vec![u64::MAX - 1, 2, u64::MAX - 1], 1),
    ];
    let elements = vec![stack(&["outer", "inner"]), stack(&[]), stack(&["f"])];
    let allocations = load_allocations(raws, elements).unwrap();
    assert_eq!(
        allocations,
        vec![
            Allocation {
                timesteps: vec![1, 2, 3, 4],
                offsets: vec![7, 9, 9, 0],
                size: 5,
                callstack: vec![frame("outer"), frame("inner")],
                peak_mem: 14,
                peak_timestamps: vec![2, 3],
            },
            Allocation {
                timesteps: vec![8],
                offsets: vec![0],
                size: 0,
                callstack: vec![],
                peak_mem: 0,
                peak_timestamps: vec![8],
            },
            Allocation {
                timesteps: vec![3, 3, 3],
                offsets: vec![u64::MAX - 1, 2, u64::MAX - 1],
                size: 1,
                callstack: vec![frame("f")],
                peak_mem: u64::MAX,
                peak_timestamps: vec![3, 3],
            },
        ]
    );
    for allocation in &allocations {
        assert!(allocation.is_wf());
    }
}

#[test]
fn nothing_loads_to_nothing() {
    assert_eq!(load_allocations(vec![], vec![]), Ok(vec![]));
}

#[test]
fn unequal_counts_are_an_arity_mismatch() {
    let raws = vec![
        raw(vec![0], vec![0], 1),
        raw(vec![0], vec![0], 1),
        raw(vec![0], vec![0], 1),
    ];
    let elements = vec![stack(&[]), stack(&[])];
    assert_eq!(load_allocations(raws, elements), Err(LoadError::ArityMismatch(3, 2)));
    assert_eq!(
        load_allocations(vec![], vec![stack(&[])]),
        Err(LoadError::ArityMismatch(0, 1))
    );
}

#[test]
fn allocations_without_samples_are_refused() {
    let raws = vec![raw(vec![0], vec![0], 1), raw(vec![], vec![], 1)];
    let elements = vec![stack(&[]), stack(&[])];
    assert_eq!(load_allocations(raws, elements), Err(LoadError::NoSamples(1)));
}

#[test]
fn unequal_samples_are_refused() {
    let raws = vec![raw(vec![0, 1], vec![0], 1), raw(vec![], vec![], 1)];
    let elements = vec![stack(&[]), stack(&[])];
    assert_eq!(load_allocations(raws, elements), Err(LoadError::SampleCountMismatch(0, 2, 1)));
    let raws = vec![raw(vec![], vec![4], 1)];
    assert_eq!(
        load_allocations(raws, vec![stack(&[])]),
        Err(LoadError::SampleCountMismatch(0, 0, 1))
    );
}

#[test]
fn peaks_beyond_64_bits_are_refused() {
    let raws = vec![raw(vec![0], vec![0], 1), raw(vec![0, 1], vec![5, u64::MAX], 1)];
    let elements = vec![stack(&[]), stack(&[])];
    assert_eq!(load_allocations(raws, elements), Err(LoadError::PeakOverflow(1)));
}

#[test]
fn the_first_failure_is_reported() {
    let raws = vec![
        raw(vec![0], vec![0], 1),
        raw(vec![0], vec![u64::MAX], 1),
        raw(vec![], vec![], 1),
    ];
    let elements = vec![stack(&[]), stack(&[]), stack(&[])];
    assert_eq!(load_allocations(raws, elements), Err(LoadError::PeakOverflow(1)));
}

#[test]
fn load_error_messages() {
    assert_eq!(
        LoadError::ArityMismatch(3, 2).message(),
        "Mismatch in the number of entries: 3 allocations vs 2 elements"
    );
    assert_eq!(LoadError::MissingDocuments(true, true).message(), "allocations and elements not found!");
    assert_eq!(LoadError::MissingDocuments(true, false).message(), "allocations not found!");
    assert_eq!(LoadError::MissingDocuments(false, true).message(), "elements not found!");
    assert_eq!(LoadError::NoSamples(4).message(), "Allocation 4 has no offsets");
    assert_eq!(
        LoadError::SampleCountMismatch(1, 2, 3).message(),
        "Allocation 1 has 2 timesteps but 3 offsets"
    );
    assert_eq!(LoadError::PeakOverflow(0).message(), "Allocation 0 has a peak beyond 64 bits");
}

fn alive(timesteps: Vec<u64>) -> Allocation {
    let n = timesteps.len();
    Allocation {
        peak_timestamps: timesteps.clone(),
        timesteps,
        offsets: vec![0; n],
        size: 1,
        callstack: vec![],
        peak_mem: 1,
    }
}

#[test]
fn an_allocation_is_alive_from_its_first_time_to_its_last() {
    let a = alive(vec![5, 7, 7, 12]);
    assert!(a.is_alive_at(5));
    assert!(a.is_alive_at(12));
    assert!(a.is_alive_at(6));
    assert!(!a.is_alive_at(4));
    assert!(!a.is_alive_at(13));
    assert_eq!(a.start_end_time(), (5, 12));
    assert!(a.is_alive_in_interval(5, 12));
    assert!(a.is_alive_in_interval(12, 5));
    assert!(!a.is_alive_in_interval(4, 12));
    assert!(!a.is_alive_in_interval(5, 13));
    let one = alive(vec![0]);
    assert!(one.is_alive_at(0));
    assert!(!one.is_alive_at(1));
    assert_eq!(one.start_end_time(), (0, 0));
    let late = alive(vec![u64::MAX]);
    assert!(late.is_alive_at(u64::MAX));
    assert!(!late.is_alive_at(u64::MAX - 1));
}

#[test]
fn wholeness_is_tested() {
    let good = Allocation {
        timesteps: vec![1, 2],
        offsets: vec![4, 4],
        size: 6,
        callstack: vec![],
        peak_mem: 10,
        peak_timestamps: vec![1, 2],
    };
    assert!(good.is_wf());
    assert!(!Allocation { peak_mem: 11, ..good.clone() }.is_wf());
    assert!(!Allocation { peak_timestamps: vec![1], ..good.clone() }.is_wf());
    assert!(!Allocation { offsets: vec![4], ..good.clone() }.is_wf());
    assert!(!Allocation { timesteps: vec![], offsets: vec![], ..good.clone() }.is_wf());
    assert!(!Allocation { size: u64::MAX, ..good.clone() }.is_wf());
}

#[test]
fn helpers_on_numbers() {
    assert_eq!(largest_offset(&vec![]), 0);
    assert_eq!(largest_offset(&vec![3, 9, 2, 9]), 9);
    assert_eq!(times_of_offset(&vec![1, 2, 3, 4], &vec![3, 9, 2, 9], 9), vec![2, 4]);
    assert_eq!(times_of_offset(&vec![1, 2], &vec![3, 9], 5), vec![]);
    assert!(same_numbers(&vec![1, 2], &vec![1, 2]));
    assert!(!same_numbers(&vec![1, 2], &vec![1, 3]));
    assert!(!same_numbers(&vec![1, 2], &vec![1]));
}

#[test]
fn documents_are_known_by_their_names() {
    assert_eq!(document_kind("allocations.json"), DocumentKind::Allocations);
    assert_eq!(document_kind("elements.json"), DocumentKind::Elements);
    assert_eq!(document_kind("run7/transformer_allocations.json"), DocumentKind::Allocations);
    assert_eq!(document_kind("run7/transformer_elements.json"), DocumentKind::Elements);
    assert_eq!(document_kind("allocations_and_elements.json"), DocumentKind::Allocations);
    assert_eq!(document_kind("allocations.txt"), DocumentKind::Other);
    assert_eq!(document_kind("allocations.JSON"), DocumentKind::Other);
    assert_eq!(document_kind("allocations/readme.json"), DocumentKind::Other);
    assert_eq!(document_kind("other.json"), DocumentKind::Other);
    assert_eq!(document_kind(".json"), DocumentKind::Other);
    assert_eq!(document_kind(""), DocumentKind::Other);
    assert_eq!(document_kind("elements.json/"), DocumentKind::Other);
    assert_eq!(document_kind("données/élements.json"), DocumentKind::Other);
    assert_eq!(document_kind("données/elements.json"), DocumentKind::Elements);
}

#[test]
fn an_archive_needs_both_documents() {
    let both = raw_snap_from_documents(
        "run.zip".to_string(),
        Some("[1]".to_string()),
        Some("[2]".to_string()),
    )
    .unwrap();
    assert_eq!(both.allocations, "[1]");
    assert_eq!(both.elements, "[2]");
    assert_eq!(both.dumptype, SnapType::Zip { path: "run.zip".to_string() });
    assert_eq!(
        raw_snap_from_documents("run.zip".to_string(), None, Some("[]".to_string())),
        Err(LoadError::MissingDocuments(true, false))
    );
    assert_eq!(
        raw_snap_from_documents("run.zip".to_string(), Some("[]".to_string()), None),
        Err(LoadError::MissingDocuments(false, true))
    );
    assert_eq!(
        raw_snap_from_documents("run.zip".to_string(), None, None),
        Err(LoadError::MissingDocuments(true, true))
    );
}
