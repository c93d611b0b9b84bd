//! Problem letters: A to Z, then AA, AB and so on.

use vstd::prelude::*;

verus! {

pub open spec fn letter(d: nat) -> char {
    (65 + d) as char
}

/// The letters of the problem at this position, from zero.
pub open spec fn letters_of(n: nat) -> Seq<char>
    decreases n,
{
    if n < 26 {
        seq![letter(n)]
    } else {
        letters_of((n / 26 - 1) as nat).push(letter(n % 26))
    }
}

pub fn letters(n: u64) -> (r: String)
    ensures
        r@ == letters_of(n as nat),
    decreases n,
{
    let digit: u8 = (n % 26) as u8;
    let c: char = (65 + digit) as char;
    let mut out = if n < 26 {
        let none = String::new();
        none
    } else {
        letters(n / 26 - 1)
    };
    out.push(c);
    assert(n < 26 ==> out@ =~= seq![c]);
    out
}

/// The letters count on like a number: the last one goes through the alphabet
/// from A to Z, and behind Z a letter comes before it.
pub proof fn letters_count_on(n: nat)
    ensures
        n < 26 ==> letters_of(n).len() == 1 && letters_of(n)[0] as int == 'A' as int + n,
        letters_of(n).last() as int == 'A' as int + n % 26,
        letters_of(25) == seq!['Z'],
        letters_of(26) == seq!['A', 'A'],
        n % 26 != 25 ==> letters_of(n + 1).drop_last() == letters_of(n).drop_last(),
        n % 26 == 25 && n >= 26 ==> letters_of(n + 1).drop_last() == letters_of((n / 26) as nat),
{
    reveal_with_fuel(letters_of, 3);
    assert(letters_of(26) =~= seq!['A', 'A']);
    assert(letters_of(25) =~= seq!['Z']);
    assert(letter(n % 26) as nat == 65 + n % 26);
    if n >= 26 {
        let front = letters_of((n / 26 - 1) as nat);
        assert(letters_of(n) == front.push(letter(n % 26)));
        assert(letters_of(n).drop_last() =~= front);
    } else {
        assert(letters_of(n).drop_last() =~= Seq::<char>::empty());
    }
    let m = n + 1;
    if n % 26 != 25 {
        assert(m / 26 == n / 26);
        if m >= 26 {
            let front = letters_of((m / 26 - 1) as nat);
            assert(letters_of(m) == front.push(letter(m % 26)));
            assert(letters_of(m).drop_last() =~= front);
            assert(n >= 26);
        } else {
            assert(letters_of(m).drop_last() =~= Seq::<char>::empty());
        }
    } else if n >= 26 {
        assert(m / 26 == n / 26 + 1);
        let front = letters_of((m / 26 - 1) as nat);
        assert(letters_of(m) == front.push(letter(m % 26)));
        assert(letters_of(m).drop_last() =~= front);
    }
}

proof fn lemma_letters_len(n: nat)
    ensures
        letters_of(n).len() >= 1,
        letters_of(n).len() == 1 <==> n < 26,
    decreases n,
{
    if n >= 26 {
        lemma_letters_len((n / 26 - 1) as nat);
    }
}

/// No two positions have the same letters.
pub proof fn letters_are_distinct(a: nat, b: nat)
    requires
        letters_of(a) == letters_of(b),
    ensures
        a == b,
    decreases a,
{
    lemma_letters_len(a);
    lemma_letters_len(b);
    if a < 26 {
        assert(b < 26);
        assert(letters_of(a)[0] == letter(a) && letters_of(b)[0] == letter(b));
        assert(letter(a) as nat == 65 + a && letter(b) as nat == 65 + b);
    } else {
        assert(b >= 26);
        let x = (a / 26 - 1) as nat;
        let y = (b / 26 - 1) as nat;
        assert(letters_of(a).last() == letter(a % 26));
        assert(letters_of(b).last() == letter(b % 26));
        assert(letters_of(a).drop_last() =~= letters_of(x));
        assert(letters_of(b).drop_last() =~= letters_of(y));
        letters_are_distinct(x, y);
        assert(a / 26 == b / 26);
        assert(letter(a % 26) == letter(b % 26));
        assert(letter(a % 26) as nat == 65 + a % 26 && letter(b % 26) as nat == 65 + b % 26);
        assert(a == (a / 26) * 26 + a % 26);
        assert(b == (b / 26) * 26 + b % 26);
    }
}

pub open spec fn is_capital(c: char) -> bool {
    'A' <= c <= 'Z'
}

/// Every position is lettered from A to Z.
pub proof fn letters_are_capitals(n: nat)
    ensures
        letters_of(n).len() > 0,
        forall|i: int| 0 <= i < letters_of(n).len() ==> is_capital(#[trigger] letters_of(n)[i]),
    decreases n,
{
    if n >= 26 {
        let m = (n / 26 - 1) as nat;
        letters_are_capitals(m);
        assert forall|i: int| 0 <= i < letters_of(n).len() implies is_capital(
            #[trigger] letters_of(n)[i],
        ) by {
            if i < letters_of(m).len() {
                assert(letters_of(n)[i] == letters_of(m)[i]);
            } else {
                assert(letters_of(n)[i] == letter(n % 26));
            }
        }
    }
}

/// The position of the problem with these letters.
pub open spec fn position_of(word: Seq<char>) -> nat
    decreases word.len(),
{
    if word.len() == 0 {
        0
    } else {
        let last = (word.last() as nat - 65) as nat;
        if word.len() == 1 {
            last
        } else {
            (position_of(word.drop_last()) + 1) * 26 + last
        }
    }
}

/// Every word of capitals letters a position.
pub proof fn every_word_is_reached(word: Seq<char>)
    requires
        word.len() > 0,
        forall|i: int| 0 <= i < word.len() ==> is_capital(#[trigger] word[i]),
    ensures
        letters_of(position_of(word)) == word,
    decreases word.len(),
{
    let c = word[word.len() - 1];
    let last = (c as nat - 65) as nat;
    assert(is_capital(c));
    assert(letter(last) == c);
    if word.len() == 1 {
        assert(seq![c] =~= word);
    } else {
        let front = word.drop_last();
        assert forall|i: int| 0 <= i < front.len() implies is_capital(#[trigger] front[i]) by {
            assert(front[i] == word[i]);
        }
        every_word_is_reached(front);
        let n = position_of(word);
        assert(n / 26 - 1 == position_of(front));
        assert(n % 26 == last);
        assert(front.push(c) =~= word);
    }
}

} // verus!
