use card_deck::Deck;

// A new type, to make sure neither Copy nor Clone is required of items.
#[derive(Debug, PartialEq)]
pub struct CTest(i32);

#[test]
fn noshuff() {
    let v = vec![CTest(0), CTest(1), CTest(2), CTest(3)];
    let mut dk = Deck::build().draw_pile(v).pre_shuffle(false).done();
    assert_eq!(dk.len(), 4);
    let mut max = 0;
    for (k, v) in dk.draw(4).into_iter().enumerate() {
        assert_eq!(v, CTest(k as i32), "Enumerate in order failed");
        max = k;
    }
    assert_eq!(max, 3, "max eqauls total cards");
}

#[test]
fn drawcards() {
    let v = vec![CTest(3), CTest(2), CTest(5), CTest(9), CTest(2)];
    let mut dk = Deck::new(v);

    assert_eq!(dk.len(), 5);

    let _ = dk.draw_1();
    assert_eq!(dk.len(), 4);

    let _ = dk.draw(2);

    assert_eq!(dk.len(), 2);
    for (k, c) in dk.draw(5).into_iter().enumerate() {
        if k == 2 {
            panic!("Drew a third card {:?}", c);
        }
    }

    assert_eq!(dk.len(), 0);
}

#[test]
fn test_dig() {
    let v = vec![CTest(0), CTest(1), CTest(2), CTest(3)];
    let mut dk = Deck::build().draw_pile(v).pre_shuffle(false).done();
    assert_eq!(dk.dig_for(|c| c == &CTest(1)), Some(CTest(1)));
    assert_eq!(dk.dig_for(|c| c == &CTest(4)), None);
    assert_eq!(dk.len(), 3);
}

#[test]
fn test_dig_all() {
    let v = vec![0, 1, 2, 3, 4, 5, 6, 7];
    let mut dk = Deck::build().draw_pile(v).pre_shuffle(false).done();
    let mut adder = 0;
    for c in dk.dig_all(|n| n % 2 != 0) {
        adder += c;
    }
    assert_eq!(dk.len(), 4);
    assert_eq!(adder, 16);

    let dr: Vec<u32> = dk.draw_all();
    assert_eq!(vec![0, 2, 4, 6], dr);
}

#[test]
fn test_dig_leaves_rest_in_order() {
    let v = vec![0, 1, 2, 3];
    let mut dk = Deck::build()
        .draw_pile(v)
        .pre_shuffle(false)
        .shuffle_discards(false)
        .done();
    assert_eq!(dk.dig_for(|c| *c == 1), Some(1));
    assert_eq!(dk.draw_all(), vec![0, 2, 3]);

    let mut dk = Deck::build().draw_pile(vec![0, 1, 2, 3]).pre_shuffle(false).done();
    assert_eq!(dk.dig_for(|c| *c == 4), None);
    assert_eq!(dk.draw_all(), vec![0, 1, 2, 3]);
}

#[test]
fn test_len_policy() {
    let dk = Deck::build()
        .draw_pile(vec![1, 2, 3])
        .discard_pile(vec![4])
        .stop_on_discards(true)
        .done();
    assert_eq!(dk.len(), 3);
    assert_eq!(dk.draw_len(), 3);
    assert_eq!(dk.discard_len(), 1);

    let dk = Deck::build()
        .draw_pile(vec![1, 2, 3])
        .discard_pile(vec![4])
        .stop_on_discards(false)
        .done();
    assert_eq!(dk.len(), 4);
    assert_eq!(dk.draw_len(), 3);
    assert_eq!(dk.discard_len(), 1);
}

#[test]
fn test_recycle_on_exhaustion() {
    let mut dk = Deck::build()
        .draw_pile(vec![1, 2, 3])
        .discard_pile(vec![4])
        .stop_on_discards(false)
        .shuffle_discards(false)
        .pre_shuffle(false)
        .done();
    assert_eq!(dk.draw_all(), vec![1, 2, 3, 4]);
    assert_eq!(dk.len(), 0);
    assert_eq!(dk.discard_len(), 0);
}

#[test]
fn test_draw_recycles_middle() {
    let mut dk = Deck::build()
        .draw_pile(vec![1, 2])
        .discard_pile(vec![3, 4])
        .pre_shuffle(false)
        .shuffle_discards(false)
        .done();
    assert_eq!(dk.draw(3), vec![1, 2, 3]);
    assert_eq!(dk.draw_len(), 1);
    assert_eq!(dk.discard_len(), 0);
    assert_eq!(dk.draw_1(), Some(4));
}

#[test]
fn test_short_draw_stops_on_discards() {
    let mut dk = Deck::build()
        .draw_pile(vec![1, 2])
        .discard_pile(vec![9, 9, 9])
        .pre_shuffle(false)
        .stop_on_discards(true)
        .done();
    let drawn = dk.draw(5);
    assert_eq!(drawn.len(), 2);
    assert_eq!(drawn, vec![1, 2]);
    assert_eq!(dk.draw_len(), 0);
    assert_eq!(dk.discard_len(), 3, "discard pile must be untouched");
}

#[test]
fn test_empty_recycle_changes_nothing() {
    let mut dk = Deck::build().draw_pile(vec![5, 6, 7]).pre_shuffle(false).done();
    dk.discards_to_bottom();
    assert_eq!(dk.draw_len(), 3);
    assert_eq!(dk.draw_all(), vec![5, 6, 7]);
}

#[test]
fn test_draw_1_recycles() {
    let mut dk = Deck::build()
        .discard_pile(vec![9])
        .pre_shuffle(false)
        .shuffle_discards(false)
        .done();
    assert_eq!(dk.draw_1(), Some(9));
    assert_eq!(dk.draw_1(), None);
}

#[test]
fn test_draw_1_respects_stop_on_discards() {
    let mut dk = Deck::build()
        .discard_pile(vec![9])
        .pre_shuffle(false)
        .stop_on_discards(true)
        .done();
    assert_eq!(dk.draw_1(), None);
    assert_eq!(dk.discard_len(), 1);
}

#[test]
fn test_push_operations() {
    let mut dk = Deck::build()
        .draw_pile(vec![1])
        .pre_shuffle(false)
        .shuffle_discards(false)
        .done();
    dk.push_bottom(2); // draw pile [1,2]
    dk.put_discard(3); // discard [3]
    dk.push_discards(4); // discard [3,4]
    dk.push_discards_top(5); // discard [5,3,4]
    dk.push_top(6); // discard [6,5,3,4]
    assert_eq!(dk.draw_len(), 2);
    assert_eq!(dk.discard_len(), 4);
    assert_eq!(dk.draw_all(), vec![1, 2, 6, 5, 3, 4]);
}

#[test]
fn test_conservation_across_operations() {
    let mut dk = Deck::new(vec![1, 2, 3, 4, 5]);
    let mut held = dk.draw(2);
    dk.put_discard(held.pop().unwrap());
    dk.shuffle_draw_pile();
    dk.discards_to_bottom();
    let mut all: Vec<u32> = dk.draw_all();
    all.append(&mut held);
    all.sort();
    assert_eq!(all, vec![1, 2, 3, 4, 5], "no item lost or duplicated");
    assert_eq!(dk.len(), 0);
}

#[test]
fn test_shuffles_keep_cards() {
    let mut dk = Deck::build().draw_pile(vec![1, 2, 3, 4, 5, 6]).done();
    dk.shuffle_draw_pile();
    assert_eq!(dk.draw_len(), 6);
    let mut all = dk.draw_all();
    all.sort();
    assert_eq!(all, vec![1, 2, 3, 4, 5, 6]);
}

#[test]
fn test_peek_traversal() {
    let dk = Deck::build()
        .draw_pile(vec![1, 2, 3])
        .discard_pile(vec![4])
        .pre_shuffle(false)
        .done();
    let mut n = 0;
    let mut i = 0;
    while let Some(c) = dk.peek(i) {
        n += *c;
        i += 1;
    }
    assert_eq!(n, 10);

    // with stop_on_discards the discard pile is invisible
    let dk = Deck::build()
        .draw_pile(vec![1, 2, 3])
        .discard_pile(vec![4])
        .pre_shuffle(false)
        .stop_on_discards(true)
        .done();
    let mut n = 0;
    let mut i = 0;
    while let Some(c) = dk.peek(i) {
        n += *c;
        i += 1;
    }
    assert_eq!(n, 6);
}

#[test]
fn test_replace_at_traversal() {
    let mut dk = Deck::build().draw_pile(vec![1, 2, 3]).pre_shuffle(false).done();
    let mut i = 0;
    while i < dk.len() {
        let c = *dk.peek(i).unwrap();
        dk.replace_at(i, c + 1);
        i += 1;
    }
    assert_eq!(dk.draw_1(), Some(2));
    assert_eq!(dk.draw_all(), vec![3, 4]);
}

#[test]
fn test_dig_all_none_matching() {
    let mut dk = Deck::build().draw_pile(vec![2, 4, 6]).pre_shuffle(false).done();
    let dug = dk.dig_all(|n| n % 2 != 0);
    assert!(dug.is_empty());
    assert_eq!(dk.draw_all(), vec![2, 4, 6]);
}

#[test]
fn test_builder_empty() {
    let mut dk: Deck<u8> = Deck::build().done();
    assert_eq!(dk.len(), 0);
    assert_eq!(dk.draw_1(), None);
    assert!(dk.draw_all().is_empty());
}
