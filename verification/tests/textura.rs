use projeto_cg::textura::{para_gl, prepara_textura, Textura};

fn png_rgb(largura: u32, altura: u32, pixels: Vec<u8>) -> Vec<u8> {
    let imagem = image::RgbImage::from_raw(largura, altura, pixels).unwrap();
    let mut bytes: Vec<u8> = Vec::new();
    image::DynamicImage::ImageRgb8(imagem)
        .write_to(&mut std::io::Cursor::new(&mut bytes), image::ImageFormat::Png)
        .unwrap();
    bytes
}

#[test]
fn textura_png_vem_de_cabeca_para_baixo() {
    let png = png_rgb(1, 2, vec![1, 2, 3, 4, 5, 6]);
    assert_eq!(prepara_textura(&png, "png"), Some((1, 2, vec![4, 5, 6, 1, 2, 3])));
}

#[test]
fn textura_largura_antes_da_altura() {
    let png = png_rgb(3, 1, vec![1, 2, 3, 4, 5, 6, 7, 8, 9]);
    assert_eq!(
        prepara_textura(&png, "PNG"),
        Some((3, 1, vec![1, 2, 3, 4, 5, 6, 7, 8, 9]))
    );
}

#[test]
fn textura_que_nao_decodifica() {
    let png = png_rgb(1, 1, vec![1, 2, 3]);
    assert_eq!(prepara_textura(&png, "xyz"), None);
    assert_eq!(prepara_textura(&png, ""), None);
    assert_eq!(prepara_textura(&vec![1, 2, 3, 4], "png"), None);
}

#[test]
fn textura_grande_demais_para_gl() {
    let t = Textura { largura: 0x8000_0000, altura: 1, pixels: vec![] };
    assert_eq!(para_gl(t), None);
    let t = Textura { largura: 1, altura: u32::MAX, pixels: vec![] };
    assert_eq!(para_gl(t), None);
    let t = Textura { largura: 0x7fff_ffff, altura: 2, pixels: vec![7] };
    assert_eq!(para_gl(t), Some((0x7fff_ffff, 2, vec![7])));
}
