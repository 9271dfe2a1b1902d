use tarot::carte::{Atout, Carte, Couleur, Valeur};
use tarot::jeu::creer_jeu;

fn norm(val: Valeur, coul: Couleur) -> Carte {
    Carte::CarteNorm(coul, val)
}

fn atout(at: Atout) -> Carte {
    Carte::Atout(at)
}

#[test]
fn test_creer_jeu() {
    let jeu = creer_jeu();
    assert_eq!(jeu.len(), 78);
    assert_eq!(jeu[10], norm(Valeur::Valet, Couleur::Carreau));
}

#[test]
fn test_plus_forte_que() {
    assert!(norm(Valeur::Roi, Couleur::Coeur)
        .plus_forte_que(&norm(Valeur::Dame, Couleur::Coeur), Couleur::Coeur));
    assert!(norm(Valeur::Valet, Couleur::Coeur)
        .plus_forte_que(&norm(Valeur::Six, Couleur::Coeur), Couleur::Coeur));
    assert!(norm(Valeur::Deux, Couleur::Pique)
        .plus_forte_que(&norm(Valeur::Dame, Couleur::Coeur), Couleur::Pique));
    assert!(atout(Atout::Vingt).plus_forte_que(&atout(Atout::Dix), Couleur::Carreau));
}

#[test]
fn jeu_ordre_des_couleurs_et_des_atouts() {
    let jeu = creer_jeu();
    assert_eq!(jeu[0], norm(Valeur::As, Couleur::Carreau));
    assert_eq!(jeu[13], norm(Valeur::Roi, Couleur::Carreau));
    assert_eq!(jeu[14], norm(Valeur::As, Couleur::Coeur));
    assert_eq!(jeu[27], norm(Valeur::Roi, Couleur::Coeur));
    assert_eq!(jeu[28], norm(Valeur::As, Couleur::Trefle));
    assert_eq!(jeu[41], norm(Valeur::Roi, Couleur::Trefle));
    assert_eq!(jeu[42], norm(Valeur::As, Couleur::Pique));
    assert_eq!(jeu[55], norm(Valeur::Roi, Couleur::Pique));
    assert_eq!(jeu[56], atout(Atout::Un));
    assert_eq!(jeu[65], atout(Atout::Dix));
    assert_eq!(jeu[76], atout(Atout::VingEtUn));
    assert_eq!(jeu[77], atout(Atout::Excuse));
}

#[test]
fn jeu_sans_doublon() {
    let jeu = creer_jeu();
    for i in 0..jeu.len() {
        for j in 0..jeu.len() {
            if i != j {
                assert_ne!(jeu[i], jeu[j]);
            }
        }
    }
}

#[test]
fn jeu_composition() {
    let jeu = creer_jeu();
    let couleurs = jeu.iter().filter(|c| matches!(c, Carte::CarteNorm(_, _))).count();
    let atouts = jeu.iter().filter(|c| matches!(c, Carte::Atout(_))).count();
    let excuses = jeu.iter().filter(|c| **c == atout(Atout::Excuse)).count();
    assert_eq!(couleurs, 56);
    assert_eq!(atouts, 22);
    assert_eq!(excuses, 1);
    for coul in [Couleur::Carreau, Couleur::Pique, Couleur::Trefle, Couleur::Coeur] {
        let n = jeu
            .iter()
            .filter(|c| matches!(c, Carte::CarteNorm(k, _) if *k == coul))
            .count();
        assert_eq!(n, 14);
    }
}

#[test]
fn jeu_deux_fois_le_meme() {
    assert_eq!(creer_jeu(), creer_jeu());
}

#[test]
fn rang_des_valeurs() {
    assert_eq!(Valeur::As.rang(), 0);
    assert_eq!(Valeur::Dix.rang(), 9);
    assert_eq!(Valeur::Valet.rang(), 10);
    assert_eq!(Valeur::Cavalier.rang(), 11);
    assert_eq!(Valeur::Dame.rang(), 12);
    assert_eq!(Valeur::Roi.rang(), 13);
    for n in 0..=13u8 {
        assert_eq!(Valeur::de_rang(n).rang(), n);
    }
}

#[test]
fn rang_des_atouts() {
    assert_eq!(Atout::Excuse.rang(), 0);
    assert_eq!(Atout::Un.rang(), 1);
    assert_eq!(Atout::Dix.rang(), 10);
    assert_eq!(Atout::VingEtUn.rang(), 21);
    for n in 0..=21u8 {
        assert_eq!(Atout::de_rang(n).rang(), n);
    }
}

#[test]
fn rang_suit_l_ordre_des_types() {
    for a in 0..=13u8 {
        for b in 0..=13u8 {
            assert_eq!(Valeur::de_rang(a) < Valeur::de_rang(b), a < b);
            assert_eq!(Valeur::de_rang(a) == Valeur::de_rang(b), a == b);
        }
    }
    for a in 0..=21u8 {
        for b in 0..=21u8 {
            assert_eq!(Atout::de_rang(a) < Atout::de_rang(b), a < b);
            assert_eq!(Atout::de_rang(a) == Atout::de_rang(b), a == b);
        }
    }
}

#[test]
fn atout_bat_couleur() {
    let petit = atout(Atout::Un);
    let roi = norm(Valeur::Roi, Couleur::Coeur);
    assert!(petit.plus_forte_que(&roi, Couleur::Coeur));
    assert!(!roi.plus_forte_que(&petit, Couleur::Coeur));
    assert!(atout(Atout::Excuse).plus_forte_que(&roi, Couleur::Coeur));
}

#[test]
fn atout_le_plus_haut_gagne() {
    assert!(atout(Atout::VingEtUn).plus_forte_que(&atout(Atout::Vingt), Couleur::Pique));
    assert!(!atout(Atout::Vingt).plus_forte_que(&atout(Atout::VingEtUn), Couleur::Pique));
    assert!(atout(Atout::Un).plus_forte_que(&atout(Atout::Excuse), Couleur::Pique));
    assert!(!atout(Atout::Excuse).plus_forte_que(&atout(Atout::Un), Couleur::Pique));
}

#[test]
fn meme_couleur_la_plus_haute_valeur_gagne() {
    let as_pique = norm(Valeur::As, Couleur::Pique);
    let deux_pique = norm(Valeur::Deux, Couleur::Pique);
    assert!(deux_pique.plus_forte_que(&as_pique, Couleur::Pique));
    assert!(!as_pique.plus_forte_que(&deux_pique, Couleur::Pique));
    assert!(deux_pique.plus_forte_que(&as_pique, Couleur::Coeur));
}

#[test]
fn couleurs_differentes_la_couleur_appelee_gagne() {
    let deux_pique = norm(Valeur::Deux, Couleur::Pique);
    let roi_coeur = norm(Valeur::Roi, Couleur::Coeur);
    assert!(deux_pique.plus_forte_que(&roi_coeur, Couleur::Pique));
    assert!(!roi_coeur.plus_forte_que(&deux_pique, Couleur::Pique));
    assert!(!deux_pique.plus_forte_que(&roi_coeur, Couleur::Trefle));
    assert!(!roi_coeur.plus_forte_que(&deux_pique, Couleur::Trefle));
}

#[test]
fn jamais_deux_cartes_plus_fortes_l_une_que_l_autre() {
    let jeu = creer_jeu();
    for appelee in [Couleur::Carreau, Couleur::Pique, Couleur::Trefle, Couleur::Coeur] {
        for a in jeu.iter() {
            for b in jeu.iter() {
                if a != b {
                    assert!(!(a.plus_forte_que(b, appelee) && b.plus_forte_que(a, appelee)));
                }
            }
        }
    }
}
