use control::functor::{map_slice, map_vec};
use control::Functor;

#[test]
fn fmap_vec() {
    assert_eq!(vec![1, 2, 3].fmap(|x| x + x), vec![2, 4, 6]);
}

#[test]
fn fmap_option() {
    assert_eq!(Some(1).fmap(|x| x + x), Some(2));
}

#[test]
fn fmap() {
    let opt = Some(2);
    assert_eq!(opt.fmap(|x| x + 2), Some(4));
}

#[test]
fn fmap_array_doubles_each_element() {
    assert_eq!([1, 2, 3].fmap(|x| x + x), vec![2, 4, 6]);
}

#[test]
fn fmap_array_moves_owned_elements() {
    let words = [String::from("a"), String::from("bc"), String::from("")];
    assert_eq!(words.fmap(|w: String| w.len()), vec![1, 2, 0]);
}

#[test]
fn fmap_slice_doubles_each_element() {
    let data = [1, 2, 3];
    let view: &[i32] = &data;
    assert_eq!(view.fmap(|x| x + x), vec![2, 4, 6]);
    assert_eq!(data, [1, 2, 3]);
}

#[test]
fn fmap_changes_element_type() {
    assert_eq!(vec![1u8, 20, 255].fmap(|x| u32::from(x) + 1), vec![2u32, 21, 256]);
    assert_eq!(vec![1, 2, 3].fmap(|x| x.to_string()), vec!["1", "2", "3"]);
}

#[test]
fn fmap_keeps_order_and_count() {
    let v: Vec<usize> = (0..100).collect();
    let r = v.clone().fmap(|x| 3 * x + 1);
    assert_eq!(r.len(), 100);
    for i in 0..100 {
        assert_eq!(r[i], 3 * v[i] + 1);
    }
}

#[test]
fn fmap_empty_gives_empty() {
    let v: Vec<i32> = Vec::new();
    assert_eq!(v.fmap(|x| x + 1), Vec::<i32>::new());
    let a: [i32; 0] = [];
    assert_eq!(a.fmap(|x| x + 1), Vec::<i32>::new());
    let s: &[i32] = &[];
    assert_eq!(s.fmap(|x| x + 1), Vec::<i32>::new());
}

#[test]
fn fmap_absent_gives_absent() {
    let o: Option<i32> = None;
    assert_eq!(o.fmap(|x| x + 1), None);
}

#[test]
fn fmap_identity_gives_back_the_container() {
    assert_eq!(vec![3, 1, 2].fmap(|x| x), vec![3, 1, 2]);
    assert_eq!([3, 1, 2].fmap(|x| x), vec![3, 1, 2]);
    let s: &[i32] = &[3, 1, 2];
    assert_eq!(s.fmap(|x| x), vec![3, 1, 2]);
    assert_eq!(Some(7).fmap(|x| x), Some(7));
    assert_eq!(None::<i32>.fmap(|x| x), None);
}

#[test]
fn fmap_twice_is_fmap_of_the_composition() {
    let f = |x: i32| x + 10;
    let g = |x: i32| x * 3;
    assert_eq!(vec![1, 2, 3].fmap(f).fmap(g), vec![1, 2, 3].fmap(|x| g(f(x))));
    assert_eq!(vec![1, 2, 3].fmap(f).fmap(g), vec![33, 36, 39]);
    assert_eq!(Some(1).fmap(f).fmap(g), Some(1).fmap(|x| g(f(x))));
    assert_eq!(Some(1).fmap(f).fmap(g), Some(33));
}

#[test]
fn replace_returns_the_replacement() {
    assert_eq!(vec![1, 2, 3].replace(vec!["a", "b"]), vec!["a", "b"]);
    assert_eq!([1, 2, 3].replace(vec![9u8]), vec![9u8]);
    let s: &[i32] = &[1, 2, 3];
    assert_eq!(s.replace(Vec::<bool>::new()), Vec::<bool>::new());
    assert_eq!(Some(1).replace(Some("x")), Some("x"));
    assert_eq!(Some(1).replace(None::<u8>), None);
    assert_eq!(None::<i32>.replace(Some(5u8)), Some(5u8));
    assert_eq!(Vec::<i32>::new().replace(vec![1.5f64]), vec![1.5f64]);
}

#[test]
fn map_vec_and_map_slice_agree() {
    let f = |x: i32| x * x;
    assert_eq!(map_vec(vec![1, 2, 3, 4], &f), vec![1, 4, 9, 16]);
    assert_eq!(map_slice(&[1, 2, 3, 4], &f), vec![1, 4, 9, 16]);
}
