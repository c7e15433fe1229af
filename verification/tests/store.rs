use emblem::emblem_core::parser::location::FileContentSlice;
use emblem::emblem_core::parser::verbatim::VerbatimBlockContent;
use emblem::lint::problem::Problem;
use emblem::rc_chunk_allocator::RcChunkAllocator;
use emblem::repo::{is_clean, is_dirty, status_is_dirty, DIRTY_FLAGS};

#[derive(Debug)]
struct TestElem {
    index: usize,
}

#[test]
fn lib_new() {
    const N: usize = 5;
    const OVERFILL: usize = 3;
    let mut alloc: RcChunkAllocator<TestElem, N> = RcChunkAllocator::new();
    let mut elems = vec![];
    println!(">>{}", alloc.chunks_made());
    for i in 0..(OVERFILL * N) {
        println!("<>{}", alloc.chunks_made());
        elems.push(alloc.allocate(TestElem { index: i }));
    }
    println!("<<{}", alloc.chunks_made());
    assert_eq!(alloc.chunks_made(), OVERFILL);
    assert_eq!(elems[0].chunk, 0);
    assert_eq!(elems[0].index, 1);
    assert_eq!(elems[5].chunk, 1);
    assert_eq!(elems[14].index, 5);
}

#[test]
fn chunk_cleaning() {
    let mut alloc: RcChunkAllocator<u32, 2> = RcChunkAllocator::new();
    assert!(alloc.is_clean());
    let a = alloc.allocate(10);
    assert!(!alloc.is_clean());
    let b = alloc.allocate(20);
    assert_eq!((a.chunk, a.index), (0, 1));
    assert_eq!((b.chunk, b.index), (0, 2));
    alloc.clean();
    assert!(alloc.is_clean());
    let c = alloc.allocate(30);
    assert_eq!((c.chunk, c.index), (1, 1));
    assert_eq!(alloc.chunks_made(), 2);
    let first = emblem::rc_chunk_allocator::Rc { chunk: 0, index: 0 };
    assert_eq!(*alloc.get(&first), 10);
    let second = emblem::rc_chunk_allocator::Rc { chunk: 0, index: 1 };
    assert_eq!(*alloc.get(&second), 20);
}

#[test]
fn dirty_statuses() {
    assert_eq!(DIRTY_FLAGS, 0xCF9F);
    assert!(!status_is_dirty(0));
    assert!(status_is_dirty(1 << 7));
    assert!(!status_is_dirty(1 << 12));
    assert!(!status_is_dirty(1 << 5));
    assert!(!is_dirty(false, &vec![1]));
    assert!(!is_dirty(true, &vec![]));
    assert!(is_dirty(true, &vec![0, 1 << 15]));
    assert!(is_clean(false, &vec![1 << 7]));
    assert!(!is_clean(true, &vec![1 << 7]));
}

fn slice(raw: &str, start: usize) -> FileContentSlice {
    FileContentSlice { raw: raw.to_string(), start, end: start + raw.len() }
}

#[test]
fn verbatim_flatten() {
    let content = VerbatimBlockContent::Lines(vec![
        VerbatimBlockContent::Line(slice("a", 0)),
        VerbatimBlockContent::Lines(vec![VerbatimBlockContent::Line(slice("b", 2)), VerbatimBlockContent::Line(slice("c", 4))]),
        VerbatimBlockContent::Lines(vec![]),
        VerbatimBlockContent::Line(slice("d", 6)),
    ]);
    let flat = content.flatten();
    let raws: Vec<&str> = flat.iter().map(|s| s.raw.as_str()).collect();
    assert_eq!(raws, vec!["a", "b", "c", "d"]);
    assert_eq!(VerbatimBlockContent::Line(slice("x", 0)).flatten().len(), 1);
}

#[test]
fn problem_text() {
    let p = Problem::new("num-args", "too many");
    assert_eq!(p.to_string(), "[num-args]:\n\ttoo many\n");
}
