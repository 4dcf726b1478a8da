use projeto_cg::alglin::transpose;
use projeto_cg::bytes::{bytes_iguais, copia_bytes};
use projeto_cg::cena::{estado_inicial, monta_lista_de_vertices, trata_tecla, EstadoCena, Tecla};
use projeto_cg::cilindro::{malha_cilindro, PontoCilindro, DIVISOES};
use projeto_cg::faces::{acrescenta_faces, circular_sliding_window_of_three, faces_cabem, materiais_visitados};
use projeto_cg::objetos::{cria_objeto, divide, le_u32, tenta_criar_objeto};

fn b(s: &str) -> Vec<u8> {
    s.as_bytes().to_vec()
}

#[test]
fn test_circular_sliding_window() {
    let vector = vec![1, 2, 3, 4, 5, 6, 7, 8, 9, 10];
    let r = circular_sliding_window_of_three(vector);
    assert_eq!(
        r,
        vec![
            1, 2, 3, 2, 3, 4, 3, 4, 5, 4, 5, 6, 5, 6, 7, 6, 7, 8, 7, 8, 9, 8, 9, 10, 9, 10, 1
        ]
    );
}

#[test]
fn janela_de_triangulo_fica_igual() {
    assert_eq!(circular_sliding_window_of_three(vec![7u32, 8, 9]), vec![7, 8, 9]);
}

#[test]
fn janela_de_quadrado_e_de_poucos_cantos() {
    assert_eq!(
        circular_sliding_window_of_three(vec![1u32, 2, 3, 4]),
        vec![1, 2, 3, 2, 3, 4, 3, 4, 1]
    );
    assert_eq!(circular_sliding_window_of_three(vec![5u32, 6]), vec![5, 6, 5]);
    assert_eq!(circular_sliding_window_of_three(vec![5u32]), Vec::<u32>::new());
}

#[test]
fn le_u32_aceita_o_que_parse_aceita() {
    for t in ["0", "42", "+7", "0007", "4294967295", "4294967296", "", "+", "-1", "-0", "12a", " 1", "99999999999"] {
        assert_eq!(le_u32(&b(t)), t.parse::<u32>().ok(), "token {:?}", t);
    }
}

#[test]
fn divide_guarda_campos_vazios() {
    let s = b("a  b/");
    let r = divide(&s, 0, s.len(), b' ');
    assert_eq!(r, vec![b("a"), b(""), b("b/")]);
    let r = divide(&s, 3, 5, b'/');
    assert_eq!(r, vec![b("b"), b("")]);
    let vazio = b("");
    assert_eq!(divide(&vazio, 0, 0, b' '), vec![b("")]);
}

#[test]
fn bytes_iguais_e_copia() {
    assert!(bytes_iguais(&b("abc"), &b("abc")));
    assert!(!bytes_iguais(&b("abc"), &b("abd")));
    assert!(!bytes_iguais(&b("ab"), &b("abc")));
    assert_eq!(copia_bytes(&b("xyz")), b("xyz"));
}

const OBJ: &str = "# cubo\r\nv 1.0 2.0 3.0\r\nv -1 0 0.5 extra\nvt 0.25 0.75\nvt 1 0\n\nusemtl pele\nf 1/1 2/2 1/2\nusemat roupa\nf 2 1/ 1/1/3 2//1\no qualquer coisa\nf +1/+2";

#[test]
fn cria_objeto_le_vertices_texturas_e_faces() {
    let o = cria_objeto(&b(OBJ));
    assert_eq!(
        o.vertices,
        vec![[b("1.0"), b("2.0"), b("3.0")], [b("-1"), b("0"), b("0.5")]]
    );
    assert_eq!(o.texturas, vec![[b("0.25"), b("0.75")], [b("1"), b("0")]]);
    assert_eq!(o.material, b("roupa"));
    assert_eq!(
        o.faces,
        vec![
            (vec![1, 2, 1], vec![1, 2, 2], b("pele")),
            (vec![2, 1, 1, 2], vec![0, 0, 1, 0], b("roupa")),
            (vec![1], vec![2], b("roupa")),
        ]
    );
}

#[test]
fn texto_vazio_da_modelo_vazio() {
    let o = cria_objeto(&b(""));
    assert!(o.vertices.is_empty() && o.texturas.is_empty() && o.faces.is_empty());
    assert!(o.material.is_empty());
}

#[test]
fn linhas_que_nao_se_leem() {
    for t in [
        "v 1 2",
        "vt 1",
        "usemtl",
        "f 1 x",
        "f 1/y",
        "f 4294967296",
        "f 1 2 3\r",
        "v 1 2 3\nf -1",
        "f ",
    ] {
        assert!(tenta_criar_objeto(&b(t)).is_none(), "texto {:?}", t);
    }
    assert!(tenta_criar_objeto(&b("f 1 2 3\r\n")).is_some());
    assert!(tenta_criar_objeto(&b("f 1\r\r\nv 1 2 3")).is_none());
    assert!(tenta_criar_objeto(&b("f 1\rf 2\n")).is_none());
    assert!(tenta_criar_objeto(&b("f\n")).is_some());
    assert!(tenta_criar_objeto(&b("vn 1\nV 1\n")).is_some());
}

#[test]
fn fim_de_linha_crlf_ou_lf_da_o_mesmo() {
    let a = cria_objeto(&b("v 1 2 3\nf 1 1 1\n"));
    let c = cria_objeto(&b("v 1 2 3\r\nf 1 1 1\r\n"));
    assert_eq!(a.vertices, c.vertices);
    assert_eq!(a.faces, c.faces);
}

#[test]
fn faces_tem_tantas_texturas_quanto_vertices() {
    let o = cria_objeto(&b(OBJ));
    for (v, t, _) in o.faces.iter() {
        assert_eq!(v.len(), t.len());
    }
}

#[test]
fn acrescenta_faces_expande_em_triangulos() {
    let vertices = vec![10u64, 20, 30, 40];
    let texturas = vec!['a', 'b', 'c', 'd'];
    let faces = vec![
        (vec![1u32, 2, 3], vec![4u32, 3, 2], b("m")),
        (vec![4u32, 3, 2, 1], vec![1u32, 1, 2, 2], b("m")),
    ];
    let mut lista_v = vec![0u64];
    let mut lista_t = vec!['z'];
    let r = acrescenta_faces(&vertices, &texturas, &faces, &mut lista_v, &mut lista_t);
    assert_eq!(r, (1, 12));
    assert_eq!(lista_v, vec![0, 10, 20, 30, 40, 30, 20, 30, 20, 10, 20, 10, 40]);
    assert_eq!(lista_t, vec!['z', 'd', 'c', 'b', 'a', 'a', 'b', 'a', 'b', 'b', 'b', 'b', 'a']);
}

#[test]
fn listas_de_vertices_e_texturas_crescem_juntas() {
    let o = cria_objeto(&b("f 1/1 1/1 1/1 1/1 1/1\nf 1/1 1/1\n"));
    let mut lv: Vec<i32> = Vec::new();
    let mut lt: Vec<i32> = Vec::new();
    let (ini, n) = acrescenta_faces(&vec![5], &vec![6], &o.faces, &mut lv, &mut lt);
    assert_eq!((ini, n), (0, 15));
    assert_eq!(lv.len(), n);
    assert_eq!(lt.len(), n);
}

#[test]
fn materiais_visitados_sem_repeticao() {
    let faces = vec![
        (vec![1u32], vec![1u32], b("a")),
        (vec![1u32], vec![1u32], b("b")),
        (vec![1u32], vec![1u32], b("a")),
        (vec![1u32], vec![1u32], b("")),
        (vec![1u32], vec![1u32], b("b")),
    ];
    assert_eq!(materiais_visitados(&faces), vec![b("a"), b("b"), b("")]);
    assert!(materiais_visitados(&Vec::new()).is_empty());
}

#[test]
fn transposta() {
    let m = [[1, 2, 3, 4], [5, 6, 7, 8], [9, 10, 11, 12], [13, 14, 15, 16]];
    let t = transpose(&m);
    assert_eq!(t, [[1, 5, 9, 13], [2, 6, 10, 14], [3, 7, 11, 15], [4, 8, 12, 16]]);
    assert_eq!(transpose(&t), m);
}

#[test]
fn teclas_da_cena() {
    let e0 = estado_inicial();
    assert_eq!(
        e0,
        EstadoCena {
            modo_poligono: 0,
            comando_pessoa1: 0,
            comando_pessoa2: 8,
            comando_halter: 0,
            fechar: false,
        }
    );
    let mut e = e0;
    for _ in 0..5 {
        e = trata_tecla(e, Tecla::L);
    }
    assert_eq!(e.comando_pessoa1, -3);
    e = trata_tecla(e, Tecla::H);
    assert_eq!(e.comando_pessoa1, -2);
    for _ in 0..5 {
        e = trata_tecla(e, Tecla::H);
    }
    assert_eq!(e.comando_pessoa1, 0);
    e = trata_tecla(e, Tecla::P);
    assert_eq!(e.modo_poligono, 1);
    let e2 = trata_tecla(e, Tecla::P);
    assert_eq!(e2.modo_poligono, 0);
    assert_eq!(trata_tecla(e2, Tecla::Outra), e2);
    assert!(!e2.fechar);
    let e3 = trata_tecla(e2, Tecla::Escape);
    assert!(e3.fechar);
    assert_eq!(trata_tecla(e3, Tecla::H).fechar, true);
    assert_eq!(e3.comando_pessoa2, 8);
}

#[test]
fn p_duas_vezes_e_h_depois_de_l() {
    let e = trata_tecla(trata_tecla(estado_inicial(), Tecla::L), Tecla::L);
    assert_eq!(trata_tecla(trata_tecla(e, Tecla::P), Tecla::P), e);
    assert_eq!(trata_tecla(trata_tecla(e, Tecla::L), Tecla::H), e);
}

#[test]
fn lista_de_vertices_da_cena() {
    let partes = vec![vec![1, 2], vec![], vec![3], vec![4, 5, 6]];
    let (lista, inicios) = monta_lista_de_vertices(&partes);
    assert_eq!(lista, vec![1, 2, 3, 4, 5, 6]);
    assert_eq!(inicios, vec![0, 2, 2, 3]);
    for (i, p) in partes.iter().enumerate() {
        for (k, x) in p.iter().enumerate() {
            assert_eq!(lista[inicios[i] + k], *x);
        }
    }
}

#[test]
fn malha_de_cilindro() {
    let m = malha_cilindro(2, &vec![true, false], &vec![false, true]);
    let q = |i: u32, j: u32| {
        vec![
            PontoCilindro::Borda { setor: i, camada: j },
            PontoCilindro::Borda { setor: i + 1, camada: j },
            PontoCilindro::Borda { setor: i, camada: j + 1 },
            PontoCilindro::Borda { setor: i + 1, camada: j + 1 },
            PontoCilindro::Borda { setor: i, camada: j + 1 },
            PontoCilindro::Borda { setor: i + 1, camada: j },
        ]
    };
    let mut esperado = Vec::new();
    esperado.extend(q(0, 0));
    esperado.extend(vec![PontoCilindro::Borda { setor: 0, camada: 0 }, PontoCilindro::Borda { setor: 1, camada: 0 }, PontoCilindro::Centro { camada: 0 }]);
    esperado.extend(q(1, 0));
    esperado.extend(vec![PontoCilindro::Borda { setor: 1, camada: 0 }, PontoCilindro::Borda { setor: 2, camada: 0 }, PontoCilindro::Centro { camada: 0 }]);
    esperado.extend(q(0, 1));
    esperado.extend(vec![PontoCilindro::Borda { setor: 0, camada: 2 }, PontoCilindro::Borda { setor: 1, camada: 2 }, PontoCilindro::Centro { camada: 2 }]);
    esperado.extend(q(1, 1));
    esperado.extend(vec![PontoCilindro::Borda { setor: 1, camada: 2 }, PontoCilindro::Borda { setor: 2, camada: 2 }, PontoCilindro::Centro { camada: 2 }]);
    assert_eq!(m, esperado);
}

#[test]
fn malha_padrao_tem_o_tamanho_esperado() {
    let n = DIVISOES as usize;
    let mut base = vec![false; n];
    let mut topo = vec![false; n];
    base[0] = true;
    topo[n - 1] = true;
    let m = malha_cilindro(DIVISOES, &base, &topo);
    assert_eq!(m.len(), 40 * (6 * 40 + 3 * 1 + 3 * 1));
    assert!(m.iter().all(|p| match *p {
        PontoCilindro::Borda { setor, camada } => setor <= 40 && camada <= 40,
        PontoCilindro::Centro { camada } => camada <= 40,
    }));
}

#[test]
fn teclas_do_braco_e_do_halter() {
    let e0 = estado_inicial();
    let e = trata_tecla(trata_tecla(e0, Tecla::C), Tecla::C);
    assert_eq!(e.comando_pessoa2, 10);
    assert_eq!(trata_tecla(e, Tecla::R).comando_pessoa2, 9);
    let e = trata_tecla(trata_tecla(e0, Tecla::X), Tecla::X);
    assert_eq!(e.comando_halter, 2);
    let e = trata_tecla(trata_tecla(trata_tecla(e, Tecla::N), Tecla::N), Tecla::N);
    assert_eq!(e.comando_halter, -1);
    assert_eq!(trata_tecla(trata_tecla(e0, Tecla::C), Tecla::R), e0);
    assert_eq!(trata_tecla(trata_tecla(e0, Tecla::X), Tecla::N), e0);
    let mut m = e0;
    for _ in 0..300 {
        m = trata_tecla(m, Tecla::X);
    }
    assert_eq!(m.comando_halter, 127);
    assert_eq!(m.comando_pessoa1, 0);
    assert_eq!(m.modo_poligono, 0);
}

#[test]
fn face_de_um_canto_nao_gera_triangulos() {
    let o = cria_objeto(&b("v 1 2 3\nf 1\nf 99\nf 1/1 1/1 1/1\nvt 0 0\n"));
    assert_eq!(o.faces[0], (vec![1], vec![0], b("")));
    assert!(faces_cabem(&o.faces, 1, 1));
    let mut lv: Vec<u8> = vec![9];
    let mut lt: Vec<u8> = Vec::new();
    let r = acrescenta_faces(&vec![7u8], &vec![8u8], &o.faces, &mut lv, &mut lt);
    assert_eq!(r, (1, 3));
    assert_eq!(lv, vec![9, 7, 7, 7]);
    assert_eq!(lt, vec![8, 8, 8]);
}

#[test]
fn faces_que_nao_cabem() {
    let sem_cantos = vec![(Vec::<u32>::new(), Vec::<u32>::new(), b(""))];
    assert!(!faces_cabem(&sem_cantos, 5, 5));
    let dois_cantos_fora = vec![(vec![1u32, 6], vec![1u32, 1], b(""))];
    assert!(!faces_cabem(&dois_cantos_fora, 5, 5));
    let textura_zero = vec![(vec![1u32, 2], vec![0u32, 1], b(""))];
    assert!(!faces_cabem(&textura_zero, 5, 5));
    let ok = vec![(vec![1u32, 2], vec![1u32, 1], b(""))];
    assert!(faces_cabem(&ok, 2, 1));
}
