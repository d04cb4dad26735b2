//! The matrices of an anyon model, as the braid engine takes them.

use vstd::prelude::*;
use vstd::string::*;
use crate::error::Error;
use crate::math::{is_matrix, width, Matrix};

verus! {

/// Whether `rows` are the rows of a matrix with two rows and two columns.
pub open spec fn two_by_two<T>(rows: Seq<Seq<T>>) -> bool {
    is_matrix(rows) && rows.len() == 2 && width(rows) == 2
}

/// What an anyon model is, as plain values.
pub struct AnyonModelView<T> {
    /// The R-matrix: the operator of a swap of two anyons that fuse with
    /// each other.
    pub r_mtx: Seq<Seq<T>>,
    /// The R-matrix in the basis changed by the F-matrix, F⁻¹·R·F: the
    /// operator of any other swap. None where the F-matrix has no inverse.
    pub basis_changed: Option<Seq<Seq<T>>>,
    /// The operator that leaves a qubit as it is.
    pub identity: Seq<Seq<T>>,
}

impl<T> AnyonModelView<T> {
    /// The invariant of a model: each of its matrices acts on one qubit.
    pub open spec fn wf(self) -> bool {
        &&& two_by_two(self.r_mtx)
        &&& two_by_two(self.identity)
        &&& self.basis_changed matches Some(matrix) ==> two_by_two(matrix)
    }
}

/// The fixed matrices of an anyon model. They are constants of the model,
/// supplied from outside; the engine chooses among them and composes them,
/// and takes them for what they are said to be.
pub struct AnyonModel<T> {
    r_mtx: Matrix<T>,
    basis_changed: Option<Matrix<T>>,
    identity: Matrix<T>,
}

impl<T> View for AnyonModel<T> {
    type V = AnyonModelView<T>;

    closed spec fn view(&self) -> AnyonModelView<T> {
        AnyonModelView {
            r_mtx: self.r_mtx@,
            basis_changed: match self.basis_changed {
                Some(matrix) => Some(matrix@),
                None => None,
            },
            identity: self.identity@,
        }
    }
}

/// Whether the matrix has two rows and two columns.
fn is_two_by_two<T>(matrix: &Matrix<T>) -> (fits: bool)
    requires
        matrix.wf(),
    ensures
        fits == two_by_two(matrix@),
{
    matrix.nrows() == 2 && matrix.ncols() == 2
}

impl<T> AnyonModel<T> {
    /// The invariant of a model.
    pub open spec fn wf(&self) -> bool {
        self@.wf()
    }

    /// Puts a model together from its R-matrix, its R-matrix in the changed
    /// basis (F⁻¹·R·F, or nothing where the F-matrix has no inverse) and the
    /// identity on one qubit. Matrices of another shape than two by two make
    /// no model.
    pub fn new(r_mtx: Matrix<T>, basis_changed: Option<Matrix<T>>, identity: Matrix<T>) -> (outcome:
        Result<AnyonModel<T>, Error>)
        requires
            r_mtx.wf(),
            identity.wf(),
            basis_changed matches Some(matrix) ==> matrix.wf(),
        ensures
            outcome matches Ok(model) ==> model.wf() && model@.r_mtx == r_mtx@ && model@.identity
                == identity@ && (match basis_changed {
                Some(matrix) => model@.basis_changed == Some(matrix@),
                None => model@.basis_changed is None,
            }),
            outcome is Ok <==> two_by_two(r_mtx@) && two_by_two(identity@) && (
            basis_changed matches Some(matrix) ==> two_by_two(matrix@)),
            outcome is Err ==> outcome matches Err(Error::ConstructionError(_)),
    {
        let changed_fits = match &basis_changed {
            Some(matrix) => is_two_by_two(matrix),
            None => true,
        };
        if !is_two_by_two(&r_mtx) || !is_two_by_two(&identity) || !changed_fits {
            return Err(
                Error::ConstructionError(
                    String::from_str("The matrices of a model have two rows and two columns"),
                ),
            );
        }
        Ok(AnyonModel { r_mtx, basis_changed, identity })
    }

    /// The R-matrix.
    pub fn r_mtx(&self) -> (matrix: &Matrix<T>)
        ensures
            matrix@ == self@.r_mtx,
    {
        &self.r_mtx
    }

    /// The R-matrix in the changed basis, if the model has it.
    pub fn basis_changed(&self) -> (matrix: Option<&Matrix<T>>)
        ensures
            match matrix {
                Some(m) => self@.basis_changed == Some(m@),
                None => self@.basis_changed is None,
            },
    {
        match &self.basis_changed {
            Some(matrix) => Some(matrix),
            None => None,
        }
    }

    /// The identity on one qubit.
    pub fn identity(&self) -> (matrix: &Matrix<T>)
        ensures
            matrix@ == self@.identity,
    {
        &self.identity
    }
}

} // verus!
