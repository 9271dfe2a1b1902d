use tarot::carte::{Atout, Carte, Couleur, Valeur};
use tarot::donne::{distrib, distribuer, ErreurDonne};
use tarot::jeu::creer_jeu;
use tarot::joueur::{Equipe, Joueur, Mise, PrePartie};

fn partie(noms: &[&'static str]) -> PrePartie<'static> {
    PrePartie {
        joueurs: noms.iter().map(|nom| Joueur::creer(nom, Equipe::Defense)).collect(),
        chien: Vec::new(),
        mise_mini: Mise::Garde,
    }
}

fn toutes_les_cartes(prep: &PrePartie) -> Vec<Carte> {
    let mut cartes = prep.chien.clone();
    for joueur in prep.joueurs.iter() {
        cartes.extend(joueur.main.iter().copied());
    }
    cartes
}

fn chaque_carte_une_fois(cartes: &[Carte]) -> bool {
    cartes.len() == 78
        && creer_jeu()
            .iter()
            .all(|carte| cartes.iter().filter(|c| *c == carte).count() == 1)
}

#[test]
fn distribuer_a_cinq_joueurs() {
    let jeu = creer_jeu();
    let apres = distribuer(partie(&["a", "b", "c", "d", "e"]), jeu.clone()).unwrap();
    assert_eq!(apres.chien, jeu[0..3].to_vec());
    assert_eq!(apres.joueurs.len(), 5);
    for (j, joueur) in apres.joueurs.iter().enumerate() {
        assert_eq!(joueur.main.len(), 15);
        for k in 0..15 {
            assert_eq!(joueur.main[k], jeu[3 + 3 * ((k / 3) * 5 + j) + k % 3]);
        }
    }
    assert_eq!(
        apres.joueurs[0].main[0..6].to_vec(),
        vec![jeu[3], jeu[4], jeu[5], jeu[18], jeu[19], jeu[20]]
    );
    assert_eq!(apres.joueurs[4].main[12..15].to_vec(), vec![jeu[75], jeu[76], jeu[77]]);
    assert_eq!(apres.joueurs[4].main[14], Carte::Atout(Atout::Excuse));
    assert_eq!(apres.joueurs[1].pseudo, "b");
    assert!(apres.mise_mini == Mise::Garde);
    assert!(chaque_carte_une_fois(&toutes_les_cartes(&apres)));
}

#[test]
fn distribuer_a_quatre_joueurs() {
    let jeu = creer_jeu();
    let apres = distribuer(partie(&["a", "b", "c", "d"]), jeu.clone()).unwrap();
    assert_eq!(apres.chien, jeu[0..6].to_vec());
    for joueur in apres.joueurs.iter() {
        assert_eq!(joueur.main.len(), 18);
    }
    assert_eq!(apres.joueurs[0].main[0..3].to_vec(), jeu[6..9].to_vec());
    assert_eq!(apres.joueurs[3].main[0..3].to_vec(), jeu[15..18].to_vec());
    assert_eq!(apres.joueurs[0].main[3..6].to_vec(), jeu[18..21].to_vec());
    assert_eq!(
        apres.joueurs[0].main[0],
        Carte::CarteNorm(Couleur::Carreau, Valeur::Sept)
    );
    assert!(chaque_carte_une_fois(&toutes_les_cartes(&apres)));
}

#[test]
fn distribuer_a_trois_joueurs() {
    let apres = distribuer(partie(&["a", "b", "c"]), creer_jeu()).unwrap();
    assert_eq!(apres.chien.len(), 6);
    for joueur in apres.joueurs.iter() {
        assert_eq!(joueur.main.len(), 24);
    }
    assert!(chaque_carte_une_fois(&toutes_les_cartes(&apres)));
}

#[test]
fn distribuer_garde_les_cartes_deja_en_main() {
    let mut prep = partie(&["a", "b", "c"]);
    let jeu = creer_jeu();
    prep.joueurs[1].main.push(Carte::Atout(Atout::Un));
    prep.joueurs[1].plis.push(Carte::Atout(Atout::Deux));
    prep.chien.push(Carte::Atout(Atout::Trois));
    let apres = distribuer(prep, jeu.clone()).unwrap();
    assert_eq!(apres.chien, jeu[0..6].to_vec());
    assert_eq!(apres.joueurs[1].main.len(), 25);
    assert_eq!(apres.joueurs[1].main[0], Carte::Atout(Atout::Un));
    assert_eq!(apres.joueurs[1].main[1..4].to_vec(), jeu[9..12].to_vec());
    assert_eq!(apres.joueurs[1].plis, vec![Carte::Atout(Atout::Deux)]);
    assert_eq!(apres.joueurs[0].main.len(), 24);
}

#[test]
fn distribuer_un_petit_jeu() {
    let jeu = creer_jeu();
    let apres = distribuer(partie(&["a", "b"]), jeu[0..12].to_vec()).unwrap();
    assert_eq!(apres.chien, jeu[0..6].to_vec());
    assert_eq!(apres.joueurs[0].main, jeu[6..9].to_vec());
    assert_eq!(apres.joueurs[1].main, jeu[9..12].to_vec());
    let apres = distribuer(partie(&["a", "b"]), jeu[0..6].to_vec()).unwrap();
    assert_eq!(apres.chien, jeu[0..6].to_vec());
    assert!(apres.joueurs[0].main.is_empty());
    assert!(apres.joueurs[1].main.is_empty());
}

#[test]
fn distribuer_sans_joueur() {
    assert!(matches!(distribuer(partie(&[]), creer_jeu()), Err(ErreurDonne::SansJoueur)));
    assert!(matches!(distribuer(partie(&[]), Vec::new()), Err(ErreurDonne::SansJoueur)));
    assert!(matches!(distrib(partie(&[])), Err(ErreurDonne::SansJoueur)));
}

#[test]
fn distribuer_un_jeu_trop_petit() {
    let jeu = creer_jeu();
    assert!(matches!(
        distribuer(partie(&["a", "b"]), jeu[0..5].to_vec()),
        Err(ErreurDonne::JeuInsuffisant)
    ));
    assert!(matches!(
        distribuer(partie(&["a", "b", "c", "d", "e"]), jeu[0..2].to_vec()),
        Err(ErreurDonne::JeuInsuffisant)
    ));
}

#[test]
fn distribuer_un_partage_inegal() {
    let sept = ["a", "b", "c", "d", "e", "f", "g"];
    assert!(matches!(distribuer(partie(&sept), creer_jeu()), Err(ErreurDonne::PartageInegal)));
    assert!(matches!(distrib(partie(&sept)), Err(ErreurDonne::PartageInegal)));
    let jeu = creer_jeu();
    assert!(matches!(
        distribuer(partie(&["a", "b"]), jeu[0..9].to_vec()),
        Err(ErreurDonne::PartageInegal)
    ));
    assert!(matches!(
        distribuer(partie(&["a", "b"]), jeu[0..7].to_vec()),
        Err(ErreurDonne::PartageInegal)
    ));
}

#[test]
fn distrib_donne_chaque_carte_une_fois() {
    for noms in [
        vec!["a"],
        vec!["a", "b"],
        vec!["a", "b", "c"],
        vec!["a", "b", "c", "d"],
        vec!["a", "b", "c", "d", "e"],
        vec!["a", "b", "c", "d", "e", "f"],
    ] {
        let nb = noms.len();
        let apres = distrib(partie(&noms)).unwrap();
        let chien = if nb == 5 { 3 } else { 6 };
        assert_eq!(apres.chien.len(), chien);
        assert_eq!(apres.joueurs.len(), nb);
        for joueur in apres.joueurs.iter() {
            assert_eq!(joueur.main.len(), (78 - chien) / nb);
        }
        assert!(chaque_carte_une_fois(&toutes_les_cartes(&apres)));
    }
}

#[test]
fn distrib_melange_le_jeu() {
    let noms = ["a", "b", "c", "d"];
    let sans_melange = distribuer(partie(&noms), creer_jeu()).unwrap();
    let mut differentes = 0;
    for _ in 0..5 {
        let apres = distrib(partie(&noms)).unwrap();
        if toutes_les_cartes(&apres) != toutes_les_cartes(&sans_melange) {
            differentes += 1;
        }
    }
    assert!(differentes > 0);
}
