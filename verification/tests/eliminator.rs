use hypo::{guess_count, update};

fn below(h: &u32, i: usize) -> bool {
    (i as u32) <= *h
}

fn sorted(v: &[u32]) -> Vec<u32> {
    let mut s = v.to_vec();
    s.sort();
    s
}

#[test]
fn update_keeps_the_hypotheses_that_predicted_true() {
    let mut hypos: Vec<u32> = vec![3, 1, 4, 1, 5, 9, 2, 6];
    update(&mut hypos, 3, true, below);
    assert_eq!(sorted(&hypos), vec![3, 4, 5, 6, 9]);
}

#[test]
fn update_keeps_the_hypotheses_that_predicted_false() {
    let mut hypos: Vec<u32> = vec![3, 1, 4, 1, 5, 9, 2, 6];
    update(&mut hypos, 3, false, below);
    assert_eq!(sorted(&hypos), vec![1, 1, 2]);
}

#[test]
fn update_never_grows_the_population() {
    for i in 0..12 {
        for answer in [true, false] {
            let mut hypos: Vec<u32> = vec![3, 1, 4, 1, 5, 9, 2, 6];
            let before = hypos.len();
            update(&mut hypos, i, answer, below);
            assert!(hypos.len() <= before);
        }
    }
}

#[test]
fn update_survivors_agree_and_removed_disagree() {
    for i in 0..12 {
        for answer in [true, false] {
            let initial: Vec<u32> = vec![3, 1, 4, 1, 5, 9, 2, 6];
            let mut hypos = initial.clone();
            update(&mut hypos, i, answer, below);
            for h in &hypos {
                assert_eq!(below(h, i), answer);
            }
            let mut expected: Vec<u32> = Vec::new();
            for h in &initial {
                if below(h, i) == answer {
                    expected.push(*h);
                }
            }
            assert_eq!(sorted(&hypos), sorted(&expected));
        }
    }
}

#[test]
fn update_leaves_as_many_as_were_counted() {
    for i in 0..12 {
        let initial: Vec<u32> = vec![3, 1, 4, 1, 5, 9, 2, 6];
        let count = guess_count(i, &initial, below);
        let mut kept = initial.clone();
        update(&mut kept, i, true, below);
        assert_eq!(kept.len(), count);
        let mut rest = initial.clone();
        update(&mut rest, i, false, below);
        assert_eq!(rest.len(), initial.len() - count);
    }
}

#[test]
fn update_that_removes_nothing_leaves_the_order() {
    let mut hypos: Vec<u32> = vec![3, 1, 4, 1, 5, 9, 2, 6];
    update(&mut hypos, 0, true, below);
    assert_eq!(hypos, vec![3, 1, 4, 1, 5, 9, 2, 6]);
}

#[test]
fn update_can_remove_everything() {
    let mut hypos: Vec<u32> = vec![3, 1, 4, 1, 5, 9, 2, 6];
    update(&mut hypos, 0, false, below);
    assert!(hypos.is_empty());
}

#[test]
fn update_of_empty_population_does_nothing() {
    let mut hypos: Vec<u32> = Vec::new();
    update(&mut hypos, 2, true, below);
    assert!(hypos.is_empty());
    update(&mut hypos, 2, false, below);
    assert!(hypos.is_empty());
}

#[test]
fn update_keeps_each_copy_of_a_repeated_hypothesis() {
    let mut hypos: Vec<u32> = vec![7, 0, 7, 0, 7];
    update(&mut hypos, 1, true, below);
    assert_eq!(hypos, vec![7, 7, 7]);
}

#[test]
fn update_works_on_hypotheses_that_cannot_be_copied() {
    let mut hypos: Vec<String> = vec![
        String::from("a"),
        String::from("bbb"),
        String::from("cc"),
        String::from("dddd"),
    ];
    update(&mut hypos, 2, true, |h: &String, i| h.len() > i);
    hypos.sort();
    assert_eq!(hypos, vec![String::from("bbb"), String::from("dddd")]);
}
