use bomberman_r::bomberman::Bomberman;

fn fila(celdas: &[&str]) -> Vec<String> {
    celdas.iter().map(|c| c.to_string()).collect()
}

#[test]
fn test01_bomba_explota() {
    let tab_inicial = vec![
        fila(&["_", "_", "_"]),
        fila(&["_", "B1", "_"]),
        fila(&["_", "_", "_"]),
    ];
    let tab_final = vec![
        fila(&["_", "_", "_"]),
        fila(&["_", "_", "_"]),
        fila(&["_", "_", "_"]),
    ];
    let mut bomber = Bomberman {
        tablero: tab_inicial,
        pila_bombas: Vec::new(),
    };
    match Bomberman::comenzar(&mut bomber, 1, 1) {
        Ok(()) => assert_eq!(tab_final, bomber.tablero),
        Err(_e) => assert!(false),
    }
}

#[test]
fn test02_bombas_explotan_si_son_afectadas() {
    let tab_inicial = vec![
        fila(&["_", "_", "_"]),
        fila(&["_", "B1", "S1"]),
        fila(&["_", "_", "_"]),
    ];
    let tab_final = vec![
        fila(&["_", "_", "_"]),
        fila(&["_", "_", "_"]),
        fila(&["_", "_", "_"]),
    ];
    let mut bomber = Bomberman {
        tablero: tab_inicial,
        pila_bombas: Vec::new(),
    };
    match Bomberman::comenzar(&mut bomber, 1, 1) {
        Ok(()) => assert_eq!(tab_final, bomber.tablero),
        Err(_e) => assert!(false),
    }
}

#[test]
fn test03_bombas_no_afectan_si_no_alcanzan() {
    let tab_inicial = vec![
        fila(&["_", "_", "_"]),
        fila(&["B1", "_", "S1"]),
        fila(&["_", "_", "_"]),
    ];
    let tab_final = vec![
        fila(&["_", "_", "_"]),
        fila(&["_", "_", "S1"]),
        fila(&["_", "_", "_"]),
    ];
    let mut bomber = Bomberman {
        tablero: tab_inicial,
        pila_bombas: Vec::new(),
    };
    match Bomberman::comenzar(&mut bomber, 0, 1) {
        Ok(()) => assert_eq!(tab_final, bomber.tablero),
        Err(_e) => assert!(false),
    }
}

#[test]
fn test04_solo_bombas_traspaso_atraviesan_rocas_y_nadie_atraviesa_paredes() {
    let tab_inicial = vec![
        fila(&["B1", "R", "B2"]),
        fila(&["_", "_", "R"]),
        fila(&["B1", "W", "S2"]),
    ];
    let tab_final = vec![
        fila(&["B1", "R", "_"]),
        fila(&["_", "_", "R"]),
        fila(&["B1", "W", "_"]),
    ];
    let mut bomber = Bomberman {
        tablero: tab_inicial,
        pila_bombas: Vec::new(),
    };
    match Bomberman::comenzar(&mut bomber, 2, 2) {
        Ok(()) => assert_eq!(tab_final, bomber.tablero),
        Err(e) => {
            println!("{}", e);
            assert!(false)
        }
    }
}

#[test]
fn test05_desvios_cambian_direccion() {
    let tab_inicial = vec![
        fila(&["_", "_", "_"]),
        fila(&["_", "_", "S1"]),
        fila(&["_", "B2", "DU"]),
    ];
    let tab_final = vec![
        fila(&["_", "_", "_"]),
        fila(&["_", "_", "_"]),
        fila(&["_", "_", "DU"]),
    ];
    let mut bomber = Bomberman {
        tablero: tab_inicial,
        pila_bombas: Vec::new(),
    };
    match Bomberman::comenzar(&mut bomber, 1, 2) {
        Ok(()) => assert_eq!(tab_final, bomber.tablero),
        Err(_e) => assert!(false),
    }
}

#[test]
fn test06_enemigos_mueren_si_no_tienen_vida() {
    let tab_inicial = vec![
        fila(&["_", "_", "_"]),
        fila(&["B1", "F1", "_"]),
        fila(&["_", "_", "_"]),
    ];
    let tab_final = vec![
        fila(&["_", "_", "_"]),
        fila(&["_", "_", "_"]),
        fila(&["_", "_", "_"]),
    ];
    let mut bomber = Bomberman {
        tablero: tab_inicial,
        pila_bombas: Vec::new(),
    };
    match Bomberman::comenzar(&mut bomber, 0, 1) {
        Ok(()) => assert_eq!(tab_final, bomber.tablero),
        Err(_e) => assert!(false),
    }
}

#[test]
fn test07_enemigos_no_mueren_si_tienen_vida() {
    let tab_inicial = vec![
        fila(&["_", "_", "_"]),
        fila(&["B1", "F2", "_"]),
        fila(&["_", "_", "_"]),
    ];
    let tab_final = vec![
        fila(&["_", "_", "_"]),
        fila(&["_", "F1", "_"]),
        fila(&["_", "_", "_"]),
    ];
    let mut bomber = Bomberman {
        tablero: tab_inicial,
        pila_bombas: Vec::new(),
    };
    match Bomberman::comenzar(&mut bomber, 0, 1) {
        Ok(()) => assert_eq!(tab_final, bomber.tablero),
        Err(_e) => assert!(false),
    }
}

#[test]
fn test08_enemigos_sufren_bombas_distintas() {
    let tab_inicial = vec![
        fila(&["_", "_", "_"]),
        fila(&["B2", "F2", "S1"]),
        fila(&["_", "_", "_"]),
    ];
    let tab_final = vec![
        fila(&["_", "_", "_"]),
        fila(&["_", "_", "_"]),
        fila(&["_", "_", "_"]),
    ];
    let mut bomber = Bomberman {
        tablero: tab_inicial,
        pila_bombas: Vec::new(),
    };
    match Bomberman::comenzar(&mut bomber, 0, 1) {
        Ok(()) => assert_eq!(tab_final, bomber.tablero),
        Err(_e) => assert!(false),
    }
}

#[test]
fn test09_enemigos_no_sufren_dos_veces_la_misma_bomba() {
    let tab_inicial = vec![
        fila(&["_", "_", "_"]),
        fila(&["B3", "F2", "DL"]),
        fila(&["_", "_", "_"]),
    ];
    let tab_final = vec![
        fila(&["_", "_", "_"]),
        fila(&["_", "F1", "DL"]),
        fila(&["_", "_", "_"]),
    ];
    let mut bomber = Bomberman {
        tablero: tab_inicial,
        pila_bombas: Vec::new(),
    };
    match Bomberman::comenzar(&mut bomber, 0, 1) {
        Ok(()) => assert_eq!(tab_final, bomber.tablero),
        Err(_e) => assert!(false),
    }
}
