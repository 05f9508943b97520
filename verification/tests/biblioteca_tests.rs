use bomberman_r::bomberman::{afectar_enemigo, calcular_prox, Bomberman};
use bomberman_r::celda::{clasificar_celda, Celda};
use bomberman_r::entrada::{
    dividir_linea, es_tablero_valido, extraer_archivo_destino, extraer_coord, parsear_usize,
    unir_fila,
};
use bomberman_r::punto::Punto;

fn fila(celdas: &[&str]) -> Vec<String> {
    celdas.iter().map(|c| c.to_string()).collect()
}

fn tablero_vacio(n: usize) -> Vec<Vec<String>> {
    (0..n).map(|_| (0..n).map(|_| "_".to_string()).collect()).collect()
}

#[test]
fn bomba_en_tablero_vacio_lo_deja_vacio() {
    let mut tab = tablero_vacio(5);
    tab[2][2] = "B2".to_string();
    let mut bomber = Bomberman {
        tablero: tab,
        pila_bombas: Vec::new(),
    };
    assert_eq!(Ok(()), Bomberman::comenzar(&mut bomber, 2, 2));
    assert_eq!(tablero_vacio(5), bomber.tablero);
    assert!(bomber.pila_bombas.is_empty());
}

#[test]
fn bomba_en_esquina_no_desborda() {
    let mut tab = tablero_vacio(3);
    tab[0][0] = "S9".to_string();
    let mut bomber = Bomberman {
        tablero: tab,
        pila_bombas: Vec::new(),
    };
    assert_eq!(Ok(()), Bomberman::comenzar(&mut bomber, 0, 0));
    assert_eq!(tablero_vacio(3), bomber.tablero);
}

#[test]
fn bomba_de_alcance_cero_es_rechazada() {
    let mut bomber = Bomberman {
        tablero: vec![fila(&["B0"])],
        pila_bombas: Vec::new(),
    };
    assert_eq!(
        Err("Error: coordenadas invalidas".to_string()),
        Bomberman::comenzar(&mut bomber, 0, 0)
    );
}

#[test]
fn detonar_celda_sin_bomba_es_rechazado() {
    let mut bomber = Bomberman {
        tablero: vec![fila(&["_", "W"]), fila(&["R", "F1"])],
        pila_bombas: Vec::new(),
    };
    assert_eq!(
        Err("Error: coordenadas invalidas".to_string()),
        Bomberman::comenzar(&mut bomber, 0, 0)
    );
}

#[test]
fn detonar_fuera_del_tablero_es_rechazado() {
    let mut bomber = Bomberman {
        tablero: tablero_vacio(3),
        pila_bombas: Vec::new(),
    };
    assert_eq!(
        Err("Error: coordenadas invalidas".to_string()),
        Bomberman::comenzar(&mut bomber, 5, 1)
    );
}

#[test]
fn ficha_desconocida_en_el_camino_es_error_de_entrada() {
    let mut tab = tablero_vacio(3);
    tab[1][0] = "B1".to_string();
    tab[1][1] = "ZZ".to_string();
    let mut bomber = Bomberman {
        tablero: tab,
        pila_bombas: Vec::new(),
    };
    assert_eq!(
        Err("Error: archivo de entrada invalido".to_string()),
        Bomberman::comenzar(&mut bomber, 0, 1)
    );
}

#[test]
fn pared_protege_al_enemigo() {
    let mut bomber = Bomberman {
        tablero: vec![
            fila(&["_", "_", "_"]),
            fila(&["B2", "W", "F1"]),
            fila(&["_", "_", "_"]),
        ],
        pila_bombas: Vec::new(),
    };
    assert_eq!(Ok(()), Bomberman::comenzar(&mut bomber, 0, 1));
    let esperado = vec![
        fila(&["_", "_", "_"]),
        fila(&["_", "W", "F1"]),
        fila(&["_", "_", "_"]),
    ];
    assert_eq!(esperado, bomber.tablero);
}

#[test]
fn enemigo_fuerte_pierde_una_vida() {
    let mut bomber = Bomberman {
        tablero: vec![
            fila(&["_", "_", "_"]),
            fila(&["B1", "F9", "_"]),
            fila(&["_", "_", "_"]),
        ],
        pila_bombas: Vec::new(),
    };
    assert_eq!(Ok(()), Bomberman::comenzar(&mut bomber, 0, 1));
    let esperado = vec![
        fila(&["_", "_", "_"]),
        fila(&["_", "F8", "_"]),
        fila(&["_", "_", "_"]),
    ];
    assert_eq!(esperado, bomber.tablero);
}

#[test]
fn la_rafaga_sigue_tras_el_enemigo_y_encadena() {
    let mut tab = tablero_vacio(3);
    tab[0][0] = "B2".to_string();
    tab[0][1] = "F1".to_string();
    tab[0][2] = "B1".to_string();
    let mut bomber = Bomberman {
        tablero: tab,
        pila_bombas: Vec::new(),
    };
    assert_eq!(Ok(()), Bomberman::comenzar(&mut bomber, 0, 0));
    assert_eq!(tablero_vacio(3), bomber.tablero);
}

#[test]
fn explosion_no_toca_el_tablero_propio() {
    let inicial = vec![
        fila(&["_", "_", "_"]),
        fila(&["_", "B1", "_"]),
        fila(&["_", "_", "_"]),
    ];
    let mut bomber = Bomberman {
        tablero: inicial.clone(),
        pila_bombas: Vec::new(),
    };
    let resultado = Bomberman::explosion(&mut bomber, 1, 1, 1, 'B');
    assert_eq!(inicial, bomber.tablero);
    assert_eq!(Ok(tablero_vacio(3)), resultado);
    assert!(bomber.pila_bombas.is_empty());
}

#[test]
fn calcular_prox_avanza_y_respeta_bordes() {
    assert_eq!(
        Ok(Some(Punto { x: 1, y: 0 })),
        calcular_prox('U', Punto { x: 1, y: 1 }, 3)
    );
    assert_eq!(
        Ok(Some(Punto { x: 2, y: 1 })),
        calcular_prox('R', Punto { x: 1, y: 1 }, 3)
    );
    assert_eq!(Ok(None), calcular_prox('L', Punto { x: 0, y: 1 }, 3));
    assert_eq!(Ok(None), calcular_prox('D', Punto { x: 1, y: 2 }, 3));
    assert_eq!(
        Err("Error: archivo de entrada invalido".to_string()),
        calcular_prox('Z', Punto { x: 1, y: 1 }, 3)
    );
}

#[test]
fn afectar_enemigo_resta_vida_una_sola_vez() {
    let mut afectados: Vec<Punto> = Vec::new();
    let mut tab = vec![fila(&["F3"])];
    let p = Punto { x: 0, y: 0 };
    assert_eq!(Ok(()), afectar_enemigo(&mut afectados, p, &mut tab, Some('3')));
    assert_eq!(vec![fila(&["F2"])], tab);
    assert_eq!(vec![p], afectados);
    assert_eq!(Ok(()), afectar_enemigo(&mut afectados, p, &mut tab, Some('2')));
    assert_eq!(vec![fila(&["F2"])], tab);
}

#[test]
fn afectar_enemigo_sin_vida_valida_es_error() {
    let mut afectados: Vec<Punto> = Vec::new();
    let mut tab = vec![fila(&["FX"])];
    let p = Punto { x: 0, y: 0 };
    assert_eq!(
        Err("Error: archivo de entrada invalido".to_string()),
        afectar_enemigo(&mut afectados, p, &mut tab, Some('X'))
    );
    assert_eq!(vec![fila(&["FX"])], tab);
}

#[test]
fn clasificar_celda_reconoce_cada_ficha() {
    assert_eq!(Celda::Vacia, clasificar_celda("_"));
    assert_eq!(Celda::Pared, clasificar_celda("W"));
    assert_eq!(Celda::Roca, clasificar_celda("R"));
    assert_eq!(
        Celda::Bomba { traspaso: false, alcance: 3 },
        clasificar_celda("B3")
    );
    assert_eq!(
        Celda::Bomba { traspaso: true, alcance: 9 },
        clasificar_celda("S9")
    );
    assert_eq!(Celda::Enemigo { vida: 1 }, clasificar_celda("F1"));
    assert_eq!(Celda::Desvio { direccion: 'U' }, clasificar_celda("DU"));
    assert_eq!(Celda::Invalida, clasificar_celda("B0"));
    assert_eq!(Celda::Invalida, clasificar_celda("F0"));
    assert_eq!(Celda::Invalida, clasificar_celda("DX"));
    assert_eq!(Celda::Invalida, clasificar_celda("B12"));
    assert_eq!(Celda::Invalida, clasificar_celda(""));
    assert_eq!(Celda::Invalida, clasificar_celda("X"));
}

#[test]
fn tablero_valido_acepta_todas_las_fichas() {
    let mut tab = vec![
        fila(&["_", "W", "R", "DU"]),
        fila(&["DL", "DR", "DD", "F1"]),
        fila(&["F9", "B1", "B9", "S1"]),
        fila(&["S9", "_", "_", "_"]),
    ];
    assert!(es_tablero_valido(&mut tab));
}

#[test]
fn tablero_valido_rechaza_ficha_desconocida() {
    let mut tab = vec![fila(&["_", "_"]), fila(&["_", "X7"])];
    assert!(!es_tablero_valido(&mut tab));
}

#[test]
fn tablero_valido_rechaza_no_cuadrado() {
    let mut tab = vec![fila(&["_", "_"]), fila(&["_"])];
    assert!(!es_tablero_valido(&mut tab));
}

#[test]
fn extraer_coord_lee_las_coordenadas() {
    let args = vec![
        "programa".to_string(),
        "entrada.txt".to_string(),
        "salidas".to_string(),
        "2".to_string(),
        "1".to_string(),
    ];
    assert_eq!(Ok(Punto { x: 2, y: 1 }), extraer_coord(args, 3, 3, 4));
}

#[test]
fn extraer_coord_rechaza_lo_que_no_es_numero() {
    let args = vec!["x".to_string(), "1".to_string()];
    assert_eq!(
        Err("Error: coordenadas invalidas".to_string()),
        extraer_coord(args, 3, 0, 1)
    );
}

#[test]
fn extraer_coord_rechaza_fuera_de_rango() {
    let args = vec!["7".to_string(), "1".to_string()];
    assert_eq!(
        Err("Error: coordenadas invalidas".to_string()),
        extraer_coord(args, 3, 0, 1)
    );
}

#[test]
fn parsear_usize_lee_numeros_simples() {
    assert_eq!(Some(0), parsear_usize("0"));
    assert_eq!(Some(42), parsear_usize("42"));
    assert_eq!(None, parsear_usize(""));
    assert_eq!(None, parsear_usize("1a"));
    assert_eq!(None, parsear_usize("99999999999999999999999999"));
}

#[test]
fn dividir_linea_separa_las_fichas() {
    assert_eq!(fila(&["B1", "_", "S2"]), dividir_linea("B1 _  S2"));
    assert_eq!(fila(&["W"]), dividir_linea("  W "));
    assert_eq!(Vec::<String>::new(), dividir_linea("   "));
    assert_eq!(Vec::<String>::new(), dividir_linea(""));
    assert_eq!(fila(&["F1", "R"]), dividir_linea("F1\tR\r"));
}

#[test]
fn unir_fila_pone_un_espacio_entre_fichas() {
    assert_eq!("B1 _ S2".to_string(), unir_fila(&fila(&["B1", "_", "S2"])));
    assert_eq!("W".to_string(), unir_fila(&fila(&["W"])));
    assert_eq!("".to_string(), unir_fila(&Vec::new()));
}

#[test]
fn extraer_archivo_destino_toma_el_nombre() {
    assert_eq!(
        "uno.txt".to_string(),
        extraer_archivo_destino(&"entradas/de/uno.txt".to_string())
    );
    assert_eq!(
        "uno.txt".to_string(),
        extraer_archivo_destino(&"uno.txt".to_string())
    );
    assert_eq!("".to_string(), extraer_archivo_destino(&"carpeta/".to_string()));
    assert_eq!("".to_string(), extraer_archivo_destino(&"".to_string()));
}
