//! As dimensões da hierarquia: o encoder e o decoder locais, de byte, e o
//! backbone, de patch.
use vstd::prelude::*;

verus! {

#[derive(Clone, Copy, Debug)]
pub struct Config {
    pub d_loc: usize,
    pub h_loc: usize,
    pub f_loc: usize,
    pub n_enc: usize,
    pub n_dec: usize,
    pub d_bb: usize,
    pub h_bb: usize,
    pub f_bb: usize,
    pub n_bb: usize,
}

impl Config {
    /// Alvo da fase 1: ~11,6M parâmetros, ~46 MB em f32.
    pub fn padrao() -> (r: Self)
        ensures
            r == (Config {
                d_loc: 192,
                h_loc: 192,
                f_loc: 384,
                n_enc: 2,
                n_dec: 2,
                d_bb: 384,
                h_bb: 384,
                f_bb: 768,
                n_bb: 6,
            }),
    {
        Config {
            d_loc: 192,
            h_loc: 192,
            f_loc: 384,
            n_enc: 2,
            n_dec: 2,
            d_bb: 384,
            h_bb: 384,
            f_bb: 768,
            n_bb: 6,
        }
    }

    /// Para iterar rápido em CPU enquanto se depura o treino.
    pub fn pequeno() -> (r: Self)
        ensures
            r == (Config {
                d_loc: 96,
                h_loc: 96,
                f_loc: 192,
                n_enc: 1,
                n_dec: 1,
                d_bb: 192,
                h_bb: 192,
                f_bb: 384,
                n_bb: 3,
            }),
    {
        Config {
            d_loc: 96,
            h_loc: 96,
            f_loc: 192,
            n_enc: 1,
            n_dec: 1,
            d_bb: 192,
            h_bb: 192,
            f_bb: 384,
            n_bb: 3,
        }
    }

    /// Minúsculo, só para a checagem de gradiente (que é O(nº de parâmetros)).
    pub fn minusculo() -> (r: Self)
        ensures
            r == (Config {
                d_loc: 4,
                h_loc: 4,
                f_loc: 6,
                n_enc: 1,
                n_dec: 1,
                d_bb: 5,
                h_bb: 5,
                f_bb: 7,
                n_bb: 1,
            }),
    {
        Config { d_loc: 4, h_loc: 4, f_loc: 6, n_enc: 1, n_dec: 1, d_bb: 5, h_bb: 5, f_bb: 7, n_bb: 1 }
    }
}

} // verus!
