//! The deck of seventy-eight cards, in its sorted order.

use vstd::prelude::*;
use crate::carte::{lemma_ordre_injectif, Atout, Carte, Couleur, Valeur};

verus! {

/// The suits in the order in which the deck holds them.
pub open spec fn couleur_en(k: int) -> Couleur {
    if k <= 0 {
        Couleur::Carreau
    } else if k == 1 {
        Couleur::Coeur
    } else if k == 2 {
        Couleur::Trefle
    } else {
        Couleur::Pique
    }
}

/// The place of a suit in the deck's order of suits.
pub open spec fn place_couleur(coul: Couleur) -> int {
    match coul {
        Couleur::Carreau => 0,
        Couleur::Coeur => 1,
        Couleur::Trefle => 2,
        Couleur::Pique => 3,
    }
}

/// The card at place `i` of the sorted deck: the four suits one after the
/// other, each from the ace to the king, then the trumps from 1 to 21, then
/// the Excuse.
pub open spec fn carte_en(i: int) -> Carte {
    if i < 56 {
        Carte::CarteNorm(couleur_en(i / 14), Valeur::de_ordre(i % 14))
    } else if i < 77 {
        Carte::Atout(Atout::de_ordre(i - 55))
    } else {
        Carte::Atout(Atout::Excuse)
    }
}

/// The place of a card in the sorted deck.
pub open spec fn place(carte: Carte) -> int {
    match carte {
        Carte::CarteNorm(coul, val) => 14 * place_couleur(coul) + val.ordre(),
        Carte::Atout(at) => if at == Atout::Excuse {
            77
        } else {
            55 + at.ordre()
        },
    }
}

/// The sorted deck.
pub open spec fn jeu_complet() -> Seq<Carte> {
    Seq::new(78, |i: int| carte_en(i))
}

/// The suited cards.
pub open spec fn est_couleur() -> spec_fn(Carte) -> bool {
    |carte: Carte| carte is CarteNorm
}

/// The cards of one suit.
pub open spec fn est_de(coul: Couleur) -> spec_fn(Carte) -> bool {
    |carte: Carte| carte matches Carte::CarteNorm(c, _) && c == coul
}

/// The trumps, the Excuse among them.
pub open spec fn est_atout() -> spec_fn(Carte) -> bool {
    |carte: Carte| carte is Atout
}

/// The Excuse.
pub open spec fn est_excuse() -> spec_fn(Carte) -> bool {
    |carte: Carte| carte == Carte::Atout(Atout::Excuse)
}

/// The deck holds every card, each at its own place and nowhere else.
pub proof fn lemma_jeu_complet()
    ensures
        jeu_complet().len() == 78,
        jeu_complet().no_duplicates(),
        forall|carte: Carte|
            0 <= #[trigger] place(carte) < 78 && jeu_complet()[place(carte)] == carte,
        forall|carte: Carte| #[trigger] jeu_complet().contains(carte),
        forall|i: int| 0 <= i < 78 ==> place(#[trigger] jeu_complet()[i]) == i,
{
    lemma_ordre_injectif();
    let jeu = jeu_complet();
    assert forall|carte: Carte| 0 <= #[trigger] place(carte) < 78 && jeu[place(carte)]
        == carte by {
        match carte {
            Carte::CarteNorm(coul, val) => {
                let k = place_couleur(coul);
                let n = val.ordre();
                assert(0 <= n <= 13);
                assert((14 * k + n) / 14 == k && (14 * k + n) % 14 == n);
            },
            Carte::Atout(at) => {
                assert(0 <= at.ordre() <= 21);
            },
        }
    }
    assert forall|carte: Carte| #[trigger] jeu.contains(carte) by {
        assert(jeu[place(carte)] == carte);
    }
    assert forall|i: int| 0 <= i < 78 implies place(#[trigger] jeu[i]) == i by {
        if i < 56 {
            let k = i / 14;
            let n = i % 14;
            assert(0 <= k <= 3 && 0 <= n <= 13 && i == 14 * k + n);
            assert(place_couleur(couleur_en(k)) == k);
            assert(Valeur::de_ordre(n).ordre() == n);
        } else if i < 77 {
            assert(Atout::de_ordre(i - 55).ordre() == i - 55);
        }
    }
    assert forall|i: int, j: int| 0 <= i < 78 && 0 <= j < 78 && i != j implies jeu[i]
        != jeu[j] by {
        assert(place(jeu[i]) == i && place(jeu[j]) == j);
    }
}

/// Where a predicate holds of the items from `debut` up to `fin` and of no
/// other, it keeps exactly that stretch of the sequence.
pub proof fn lemma_filtre_tranche(s: Seq<Carte>, p: spec_fn(Carte) -> bool, debut: int, fin: int)
    requires
        0 <= debut <= fin <= s.len(),
        forall|i: int| 0 <= i < s.len() ==> (p(#[trigger] s[i]) <==> debut <= i < fin),
    ensures
        s.filter(p) == s.subrange(debut, fin),
    decreases s.len(),
{
    reveal(Seq::filter);
    if s.len() == 0 {
        assert(s.subrange(debut, fin) == s);
    } else {
        let avant = s.drop_last();
        let n = s.len() - 1;
        assert forall|i: int| 0 <= i < avant.len() implies avant[i] == s[i] by {}
        if fin == s.len() && debut < fin {
            assert(p(s[n]));
            lemma_filtre_tranche(avant, p, debut, n);
            assert(avant.subrange(debut, n).push(s[n]) == s.subrange(debut, fin));
        } else if fin == s.len() {
            assert(!p(s[n]));
            lemma_filtre_tranche(avant, p, n, n);
            assert(avant.subrange(n, n) == s.subrange(debut, fin));
        } else {
            assert(!p(s[n]));
            lemma_filtre_tranche(avant, p, debut, fin);
            assert(avant.subrange(debut, fin) == s.subrange(debut, fin));
        }
    }
}

/// The deck holds fifty-six suited cards, fourteen of each suit, and
/// twenty-two trumps, one of which is the Excuse.
pub proof fn lemma_composition()
    ensures
        jeu_complet().filter(est_couleur()).len() == 56,
        forall|coul: Couleur| #[trigger] jeu_complet().filter(est_de(coul)).len() == 14,
        jeu_complet().filter(est_atout()).len() == 22,
        jeu_complet().filter(est_excuse()).len() == 1,
{
    lemma_jeu_complet();
    let jeu = jeu_complet();
    lemma_filtre_tranche(jeu, est_couleur(), 0, 56);
    lemma_filtre_tranche(jeu, est_atout(), 56, 78);
    assert forall|i: int| 0 <= i < 78 implies (est_excuse()(#[trigger] jeu[i]) <==> 77 <= i) by {
        assert(place(jeu[i]) == i);
    }
    lemma_filtre_tranche(jeu, est_excuse(), 77, 78);
    assert forall|coul: Couleur| #[trigger] jeu.filter(est_de(coul)).len() == 14 by {
        let k = place_couleur(coul);
        assert forall|i: int| 0 <= i < 78 implies (est_de(coul)(#[trigger] jeu[i]) <==> 14 * k
            <= i < 14 * k + 14) by {
            assert(place(jeu[i]) == i);
        }
        lemma_filtre_tranche(jeu, est_de(coul), 14 * k, 14 * k + 14);
    }
}

/// The suit at place `k` of the deck's order of suits, for `k` from 0 to 3.
fn couleur_de_place(k: u8) -> (coul: Couleur)
    requires
        k <= 3,
    ensures
        coul == couleur_en(k as int),
{
    if k == 0 {
        Couleur::Carreau
    } else if k == 1 {
        Couleur::Coeur
    } else if k == 2 {
        Couleur::Trefle
    } else {
        Couleur::Pique
    }
}

/// Makes the sorted deck.
pub fn creer_jeu() -> (jeu: Vec<Carte>)
    ensures
        jeu@ == jeu_complet(),
        jeu.len() == 78,
        jeu@.no_duplicates(),
{
    let mut jeu: Vec<Carte> = Vec::with_capacity(78);
    let mut k: u8 = 0;
    while k < 4
        invariant
            k <= 4,
            jeu.len() == 14 * k,
            forall|i: int| 0 <= i < jeu.len() ==> jeu@[i] == carte_en(i),
        decreases 4 - k,
    {
        let coul = couleur_de_place(k);
        let mut n: u8 = 0;
        while n < 14
            invariant
                k < 4,
                n <= 14,
                coul == couleur_en(k as int),
                jeu.len() == 14 * k + n,
                forall|i: int| 0 <= i < jeu.len() ==> jeu@[i] == carte_en(i),
            decreases 14 - n,
        {
            assert((14 * k + n) / 14 == k && (14 * k + n) % 14 == n);
            jeu.push(Carte::CarteNorm(coul, Valeur::de_rang(n)));
            n += 1;
        }
        k += 1;
    }
    let mut n: u8 = 1;
    while n <= 21
        invariant
            1 <= n <= 22,
            jeu.len() == 55 + n,
            forall|i: int| 0 <= i < jeu.len() ==> jeu@[i] == carte_en(i),
        decreases 22 - n,
    {
        jeu.push(Carte::Atout(Atout::de_rang(n)));
        n += 1;
    }
    jeu.push(Carte::Atout(Atout::Excuse));
    proof {
        assert(jeu@ =~= jeu_complet());
        lemma_jeu_complet();
    }
    jeu
}

} // verus!
